//! The lock timeline, and every change to its planned release time: why it was made, and whether
//! a Keyholder has signed off on one that was applied automatically.

use vstd::prelude::*;

use crate::arith::{minus, plus, stored};
use crate::domain::{links, notifications};
use crate::domain::rewards_punishments::assignments;
use crate::error::{is_unique_violation, DbError};
use crate::ids::{is_id, new_id};
use crate::ledger::{Ledger, LedgerView};
use crate::table::{
    any_row, count, find, find_row, insert, lemma_any_same, lemma_filter_contains, lemma_find_any,
    lemma_find_at, lemma_find_only, lemma_find_push, lemma_find_updated, lemma_listed, only, order,
    ordered_from, rows, select, update, updated, Row,
};
use crate::text::{dup_opt, listed, own, own_opt, same};

verus! {

/// A confinement session.
#[derive(Debug, PartialEq, Eq)]
pub struct Session {
    pub id: String,
    pub submissive_id: String,
    pub device_id: String,
    pub started_at: i64,
    pub ended_at: Option<i64>,
    pub target_release_at: Option<i64>,
    pub clock_paused_at: Option<i64>,
    pub clock_pause_message: Option<String>,
    pub started_reason: String,
    pub ended_reason: Option<String>,
    pub ended_by_user_id: Option<String>,
    pub notes: Option<String>,
}

/// What a `Session` holds.
#[verifier::ext_equal]
pub struct SessionView {
    pub id: Seq<char>,
    pub submissive_id: Seq<char>,
    pub device_id: Seq<char>,
    pub started_at: i64,
    pub ended_at: Option<i64>,
    pub target_release_at: Option<i64>,
    pub clock_paused_at: Option<i64>,
    pub clock_pause_message: Option<Seq<char>>,
    pub started_reason: Seq<char>,
    pub ended_reason: Option<Seq<char>>,
    pub ended_by_user_id: Option<Seq<char>>,
    pub notes: Option<Seq<char>>,
}

impl View for Session {
    type V = SessionView;

    open spec fn view(&self) -> SessionView {
        SessionView {
            id: self.id@,
            submissive_id: self.submissive_id@,
            device_id: self.device_id@,
            started_at: self.started_at,
            ended_at: self.ended_at,
            target_release_at: self.target_release_at,
            clock_paused_at: self.clock_paused_at,
            clock_pause_message: self.clock_pause_message.deep_view(),
            started_reason: self.started_reason@,
            ended_reason: self.ended_reason.deep_view(),
            ended_by_user_id: self.ended_by_user_id.deep_view(),
            notes: self.notes.deep_view(),
        }
    }
}

impl DeepView for Session {
    type V = SessionView;

    open spec fn deep_view(&self) -> SessionView {
        self.view()
    }
}

impl Row for Session {
    fn dup(&self) -> (r: Self) {
        Session {
            id: self.id.clone(),
            submissive_id: self.submissive_id.clone(),
            device_id: self.device_id.clone(),
            started_at: self.started_at,
            ended_at: self.ended_at,
            target_release_at: self.target_release_at,
            clock_paused_at: self.clock_paused_at,
            clock_pause_message: dup_opt(&self.clock_pause_message),
            started_reason: self.started_reason.clone(),
            ended_reason: dup_opt(&self.ended_reason),
            ended_by_user_id: dup_opt(&self.ended_by_user_id),
            notes: dup_opt(&self.notes),
        }
    }
}

/// A stored change to a planned release time.
#[derive(Debug, PartialEq, Eq)]
pub struct AdjustmentRow {
    pub id: String,
    pub session_id: String,
    pub delta_seconds: i64,
    pub reason: String,
    pub caused_by_assignment_id: Option<String>,
    pub adjusted_by_user_id: Option<String>,
    pub adjusted_at: i64,
    pub notes: Option<String>,
    pub keyholder_reviewed_at: Option<i64>,
}

/// What an `AdjustmentRow` holds.
#[verifier::ext_equal]
pub struct AdjustmentRowView {
    pub id: Seq<char>,
    pub session_id: Seq<char>,
    pub delta_seconds: i64,
    pub reason: Seq<char>,
    pub caused_by_assignment_id: Option<Seq<char>>,
    pub adjusted_by_user_id: Option<Seq<char>>,
    pub adjusted_at: i64,
    pub notes: Option<Seq<char>>,
    pub keyholder_reviewed_at: Option<i64>,
}

impl View for AdjustmentRow {
    type V = AdjustmentRowView;

    open spec fn view(&self) -> AdjustmentRowView {
        AdjustmentRowView {
            id: self.id@,
            session_id: self.session_id@,
            delta_seconds: self.delta_seconds,
            reason: self.reason@,
            caused_by_assignment_id: self.caused_by_assignment_id.deep_view(),
            adjusted_by_user_id: self.adjusted_by_user_id.deep_view(),
            adjusted_at: self.adjusted_at,
            notes: self.notes.deep_view(),
            keyholder_reviewed_at: self.keyholder_reviewed_at,
        }
    }
}

impl DeepView for AdjustmentRow {
    type V = AdjustmentRowView;

    open spec fn deep_view(&self) -> AdjustmentRowView {
        self.view()
    }
}

impl Row for AdjustmentRow {
    fn dup(&self) -> (r: Self) {
        AdjustmentRow {
            id: self.id.clone(),
            session_id: self.session_id.clone(),
            delta_seconds: self.delta_seconds,
            reason: self.reason.clone(),
            caused_by_assignment_id: dup_opt(&self.caused_by_assignment_id),
            adjusted_by_user_id: dup_opt(&self.adjusted_by_user_id),
            adjusted_at: self.adjusted_at,
            notes: dup_opt(&self.notes),
            keyholder_reviewed_at: self.keyholder_reviewed_at,
        }
    }
}

/// What a new session is made from.
#[derive(Debug, PartialEq, Eq)]
pub struct StartSession<'a> {
    pub submissive_id: &'a str,
    pub device_id: &'a str,
    pub started_reason: &'a str,
    pub target_release_at: Option<i64>,
    pub notes: Option<&'a str>,
}

/// What a `StartSession` holds.
#[verifier::ext_equal]
pub struct StartSessionView {
    pub submissive_id: Seq<char>,
    pub device_id: Seq<char>,
    pub started_reason: Seq<char>,
    pub target_release_at: Option<i64>,
    pub notes: Option<Seq<char>>,
}

impl<'a> View for StartSession<'a> {
    type V = StartSessionView;

    open spec fn view(&self) -> StartSessionView {
        StartSessionView {
            submissive_id: self.submissive_id@,
            device_id: self.device_id@,
            started_reason: self.started_reason@,
            target_release_at: self.target_release_at,
            notes: self.notes.deep_view(),
        }
    }
}

/// An adjustment as listings show it.
#[derive(Debug, PartialEq, Eq)]
pub struct Adjustment {
    pub id: String,
    pub delta_seconds: i64,
    pub reason: String,
    pub adjusted_by_user_id: Option<String>,
    pub adjusted_at: i64,
    pub notes: Option<String>,
    pub keyholder_reviewed_at: Option<i64>,
    /// The title of the assignment that caused it, if one did.
    pub caused_by_title: Option<String>,
}

/// What an `Adjustment` holds.
#[verifier::ext_equal]
pub struct AdjustmentView {
    pub id: Seq<char>,
    pub delta_seconds: i64,
    pub reason: Seq<char>,
    pub adjusted_by_user_id: Option<Seq<char>>,
    pub adjusted_at: i64,
    pub notes: Option<Seq<char>>,
    pub keyholder_reviewed_at: Option<i64>,
    pub caused_by_title: Option<Seq<char>>,
}

impl View for Adjustment {
    type V = AdjustmentView;

    open spec fn view(&self) -> AdjustmentView {
        AdjustmentView {
            id: self.id@,
            delta_seconds: self.delta_seconds,
            reason: self.reason@,
            adjusted_by_user_id: self.adjusted_by_user_id.deep_view(),
            adjusted_at: self.adjusted_at,
            notes: self.notes.deep_view(),
            keyholder_reviewed_at: self.keyholder_reviewed_at,
            caused_by_title: self.caused_by_title.deep_view(),
        }
    }
}

impl DeepView for Adjustment {
    type V = AdjustmentView;

    open spec fn deep_view(&self) -> AdjustmentView {
        self.view()
    }
}

impl Row for Adjustment {
    fn dup(&self) -> (r: Self) {
        Adjustment {
            id: self.id.clone(),
            delta_seconds: self.delta_seconds,
            reason: self.reason.clone(),
            adjusted_by_user_id: dup_opt(&self.adjusted_by_user_id),
            adjusted_at: self.adjusted_at,
            notes: dup_opt(&self.notes),
            keyholder_reviewed_at: self.keyholder_reviewed_at,
            caused_by_title: dup_opt(&self.caused_by_title),
        }
    }
}

/// An adjustment that waits for a Keyholder.
#[derive(Debug, PartialEq, Eq)]
pub struct UnreviewedAdjustment {
    pub submissive_id: String,
    pub delta_seconds: i64,
    pub adjusted_at: i64,
    /// The title of the assignment that caused it, if one did.
    pub caused_by_title: Option<String>,
}

/// What an `UnreviewedAdjustment` holds.
#[verifier::ext_equal]
pub struct UnreviewedAdjustmentView {
    pub submissive_id: Seq<char>,
    pub delta_seconds: i64,
    pub adjusted_at: i64,
    pub caused_by_title: Option<Seq<char>>,
}

impl View for UnreviewedAdjustment {
    type V = UnreviewedAdjustmentView;

    open spec fn view(&self) -> UnreviewedAdjustmentView {
        UnreviewedAdjustmentView {
            submissive_id: self.submissive_id@,
            delta_seconds: self.delta_seconds,
            adjusted_at: self.adjusted_at,
            caused_by_title: self.caused_by_title.deep_view(),
        }
    }
}

impl DeepView for UnreviewedAdjustment {
    type V = UnreviewedAdjustmentView;

    open spec fn deep_view(&self) -> UnreviewedAdjustmentView {
        self.view()
    }
}

impl Row for UnreviewedAdjustment {
    fn dup(&self) -> (r: Self) {
        UnreviewedAdjustment {
            submissive_id: self.submissive_id.clone(),
            delta_seconds: self.delta_seconds,
            adjusted_at: self.adjusted_at,
            caused_by_title: dup_opt(&self.caused_by_title),
        }
    }
}

/// A time effect to apply to a submissive's open session.
#[derive(Debug, PartialEq, Eq)]
pub struct ApplyEffect<'a> {
    pub submissive_id: &'a str,
    /// Positive extends, negative reduces.
    pub delta_seconds: i64,
    pub reason: &'a str,
    pub caused_by_assignment_id: &'a str,
    /// `None` when nobody clicked anything.
    pub adjusted_by_user_id: Option<&'a str>,
    /// Whether the Keyholder confirmed it in the moment.
    pub already_reviewed: bool,
}

/// What an `ApplyEffect` holds.
#[verifier::ext_equal]
pub struct ApplyEffectView {
    pub submissive_id: Seq<char>,
    pub delta_seconds: i64,
    pub reason: Seq<char>,
    pub caused_by_assignment_id: Seq<char>,
    pub adjusted_by_user_id: Option<Seq<char>>,
    pub already_reviewed: bool,
}

impl<'a> View for ApplyEffect<'a> {
    type V = ApplyEffectView;

    open spec fn view(&self) -> ApplyEffectView {
        ApplyEffectView {
            submissive_id: self.submissive_id@,
            delta_seconds: self.delta_seconds,
            reason: self.reason@,
            caused_by_assignment_id: self.caused_by_assignment_id@,
            adjusted_by_user_id: self.adjusted_by_user_id.deep_view(),
            already_reviewed: self.already_reviewed,
        }
    }
}

/// A session whose still-paused reminder is due.
#[derive(Debug, PartialEq, Eq)]
pub struct StillPausedReminder {
    pub session_id: String,
    pub keyholder_id: String,
}

/// What a `StillPausedReminder` holds.
#[verifier::ext_equal]
pub struct StillPausedReminderView {
    pub session_id: Seq<char>,
    pub keyholder_id: Seq<char>,
}

impl View for StillPausedReminder {
    type V = StillPausedReminderView;

    open spec fn view(&self) -> StillPausedReminderView {
        StillPausedReminderView {
            session_id: self.session_id@,
            keyholder_id: self.keyholder_id@,
        }
    }
}

impl DeepView for StillPausedReminder {
    type V = StillPausedReminderView;

    open spec fn deep_view(&self) -> StillPausedReminderView {
        self.view()
    }
}

impl Row for StillPausedReminder {
    fn dup(&self) -> (r: Self) {
        StillPausedReminder {
            session_id: self.session_id.clone(),
            keyholder_id: self.keyholder_id.clone(),
        }
    }
}

/// Whether an effect found a session to apply to.
#[derive(Clone, Copy, Debug, PartialEq, Eq, Structural)]
pub enum ApplyEffectOutcome {
    /// The planned release time moved.
    Applied,
    /// There is no open session; nothing changed.
    NoOpenSession,
}

/// The open session of this submissive.
pub open spec fn open_session(submissive_id: Seq<char>) -> spec_fn(SessionView) -> bool {
    |s: SessionView| s.submissive_id == submissive_id && s.ended_at is None
}

/// The session has this id.
pub open spec fn by_id(id: Seq<char>) -> spec_fn(SessionView) -> bool {
    |s: SessionView| s.id == id
}

/// With this planned release time.
pub open spec fn with_target(target: i64) -> spec_fn(SessionView) -> SessionView {
    |s: SessionView| SessionView { target_release_at: Some(target), ..s }
}

/// The planned release time moved by a delta; one that is not set yet starts from now.
pub open spec fn moved_target(s: SessionView, delta: i64, now: i64) -> int {
    (match s.target_release_at {
        Some(t) => t,
        None => now,
    }) + delta
}

/// What an effect does: the open session's planned release time moves by the delta, and an
/// adjustment says so, reviewed at once where the Keyholder confirmed it in the moment.
pub open spec fn effect_applied(
    db: LedgerView,
    id: Seq<char>,
    effect: ApplyEffectView,
    now: i64,
) -> Result<(LedgerView, ApplyEffectOutcome), DbError> {
    match find_row(db.confinements, open_session(effect.submissive_id)) {
        None => Ok((db, ApplyEffectOutcome::NoOpenSession)),
        Some(s) => match stored(moved_target(s, effect.delta_seconds, now)) {
            Err(e) => Err(e),
            Ok(target) => Ok(
                (
                    LedgerView {
                        confinements: updated(db.confinements, by_id(s.id), with_target(target)),
                        adjustments: db.adjustments.push(
                            AdjustmentRowView {
                                id,
                                session_id: s.id,
                                delta_seconds: effect.delta_seconds,
                                reason: effect.reason,
                                caused_by_assignment_id: Some(effect.caused_by_assignment_id),
                                adjusted_by_user_id: effect.adjusted_by_user_id,
                                adjusted_at: now,
                                notes: None,
                                keyholder_reviewed_at: if effect.already_reviewed {
                                    Some(now)
                                } else {
                                    None
                                },
                            },
                        ),
                        ..db
                    },
                    ApplyEffectOutcome::Applied,
                ),
            ),
        },
    }
}

/// Sets a session's planned release time.
fn set_target(db: &mut Ledger, session_id: &str, target: i64)
    ensures
        final(db)@ == (LedgerView {
            confinements: updated(old(db)@.confinements, by_id(session_id@), with_target(target)),
            ..old(db)@
        }),
{
    let ghost p = by_id(session_id@);
    let ghost u = with_target(target);
    let change = |s: &Session| -> (n: Option<Session>)
        ensures
            match n {
                Some(x) => p(s@) && x@ == u(s@),
                None => !p(s@),
            },
        {
            if same(s.id.as_str(), session_id) {
                let mut n = s.dup();
                n.target_release_at = Some(target);

                Some(n)
            } else {
                None
            }
        };
    update(&mut db.confinements, Ghost(p), Ghost(u), change);
}

/// The open session of a submissive, if there is one.
pub fn current(db: &Ledger, submissive_id: &str) -> (r: Option<Session>)
    ensures
        r.deep_view() == find_row(db@.confinements, open_session(submissive_id@)),
{
    let ghost p = open_session(submissive_id@);
    let test = |s: &Session| -> (b: bool)
        ensures
            b == p(s@),
        { same(s.submissive_id.as_str(), submissive_id) && s.ended_at.is_none() };
    match find(&db.confinements, Ghost(p), test) {
        Some(s) => Some(s.dup()),
        None => None,
    }
}

/// Applies an effect; the adjustment gets the id `id`.
pub fn apply_effect_as(db: &mut Ledger, id: String, effect: ApplyEffect, now: i64) -> (r: Result<
    ApplyEffectOutcome,
    DbError,
>)
    ensures
        match effect_applied(old(db)@, id@, effect@, now) {
            Ok((after, outcome)) => r == Ok::<ApplyEffectOutcome, DbError>(outcome) && final(db)@
                == after,
            Err(e) => r == Err::<ApplyEffectOutcome, DbError>(e) && final(db)@ == old(db)@,
        },
{
    let session = match current(db, effect.submissive_id) {
        Some(s) => s,
        None => {
            return Ok(ApplyEffectOutcome::NoOpenSession);
        },
    };
    let from: i64 = match session.target_release_at {
        Some(t) => t,
        None => now,
    };
    let target = match plus(from, effect.delta_seconds) {
        Ok(t) => t,
        Err(e) => {
            return Err(e);
        },
    };
    set_target(db, session.id.as_str(), target);
    insert(
        &mut db.adjustments,
        AdjustmentRow {
            id,
            session_id: session.id,
            delta_seconds: effect.delta_seconds,
            reason: own(effect.reason),
            caused_by_assignment_id: Some(own(effect.caused_by_assignment_id)),
            adjusted_by_user_id: own_opt(effect.adjusted_by_user_id),
            adjusted_at: now,
            notes: None,
            keyholder_reviewed_at: if effect.already_reviewed {
                Some(now)
            } else {
                None
            },
        },
    );
    Ok(ApplyEffectOutcome::Applied)
}

/// Applies an effect under a fresh adjustment id.
pub fn apply_effect(db: &mut Ledger, effect: ApplyEffect, now: i64) -> (r: Result<
    ApplyEffectOutcome,
    DbError,
>)
    ensures
        exists|id: Seq<char>|
            is_id(id) && match #[trigger] effect_applied(old(db)@, id, effect@, now) {
                Ok((after, outcome)) => r == Ok::<ApplyEffectOutcome, DbError>(outcome)
                    && final(db)@ == after,
                Err(e) => r == Err::<ApplyEffectOutcome, DbError>(e) && final(db)@ == old(db)@,
            },
{
    let id = new_id();
    apply_effect_as(db, id, effect, now)
}

/// Why a session was not started.
#[derive(Clone, Copy, Debug, PartialEq, Eq, Structural)]
pub enum StartError {
    /// The submissive has an open session.
    AlreadyOpen,
    /// The ledger failed.
    Db(DbError),
}

/// A session as it starts.
pub open spec fn new_session(id: Seq<char>, new: StartSessionView, now: i64) -> SessionView {
    SessionView {
        id,
        submissive_id: new.submissive_id,
        device_id: new.device_id,
        started_at: now,
        ended_at: None,
        target_release_at: new.target_release_at,
        clock_paused_at: None,
        clock_pause_message: None,
        started_reason: new.started_reason,
        ended_reason: None,
        ended_by_user_id: None,
        notes: new.notes,
    }
}

/// Adds a session, unless its submissive has an open one.
fn insert_session(db: &mut Ledger, s: Session) -> (r: Result<(), DbError>)
    requires
        s@.ended_at is None,
    ensures
        if any_row(old(db)@.confinements, open_session(s@.submissive_id)) {
            r == Err::<(), DbError>(DbError::Conflict) && final(db)@ == old(db)@
        } else {
            r is Ok && final(db)@ == (LedgerView {
                confinements: old(db)@.confinements.push(s@),
                ..old(db)@
            })
        },
{
    proof {
        lemma_find_any(db@.confinements, open_session(s@.submissive_id));
    }
    if current(db, s.submissive_id.as_str()).is_some() {
        return Err(DbError::Conflict);
    }
    insert(&mut db.confinements, s);
    Ok(())
}

/// Starts a session; a submissive has at most one that is open.
pub fn start(db: &mut Ledger, new: StartSession, now: i64) -> (r: Result<String, StartError>)
    ensures
        if any_row(old(db)@.confinements, open_session(new@.submissive_id)) {
            r == Err::<String, StartError>(StartError::AlreadyOpen) && final(db)@ == old(db)@
        } else {
            r is Ok && is_id(r->Ok_0@) && final(db)@ == (LedgerView {
                confinements: old(db)@.confinements.push(new_session(r->Ok_0@, new@, now)),
                ..old(db)@
            })
        },
{
    let id = new_id();
    let row = Session {
        id: id.clone(),
        submissive_id: own(new.submissive_id),
        device_id: own(new.device_id),
        started_at: now,
        ended_at: None,
        target_release_at: new.target_release_at,
        clock_paused_at: None,
        clock_pause_message: None,
        started_reason: own(new.started_reason),
        ended_reason: None,
        ended_by_user_id: None,
        notes: own_opt(new.notes),
    };
    match insert_session(db, row) {
        Ok(()) => Ok(id),
        Err(e) => Err(
            if is_unique_violation(&e) {
                StartError::AlreadyOpen
            } else {
                StartError::Db(e)
            },
        ),
    }
}

/// A session of this submissive.
pub open spec fn of_submissive(submissive_id: Seq<char>) -> spec_fn(SessionView) -> bool {
    |s: SessionView| s.submissive_id == submissive_id
}

/// Newest first.
pub open spec fn newest_first() -> spec_fn(SessionView, SessionView) -> bool {
    |a: SessionView, b: SessionView| a.started_at >= b.started_at
}

/// All of a submissive's sessions, newest first.
pub fn history(db: &Ledger, submissive_id: &str) -> (r: Vec<Session>)
    ensures
        ordered_from(
            rows(r@),
            db@.confinements.filter(of_submissive(submissive_id@)),
            newest_first(),
        ),
{
    let ghost p = of_submissive(submissive_id@);
    let ghost le = newest_first();
    let test = |s: &Session| -> (b: bool)
        ensures
            b == p(s@),
        { same(s.submissive_id.as_str(), submissive_id) };
    let before = |a: &Session, b: &Session| -> (c: bool)
        ensures
            c == le(a@, b@),
        { a.started_at >= b.started_at };
    order(select(&db.confinements, Ghost(p), test), Ghost(le), before)
}

/// Why nothing was done to an open session.
#[derive(Clone, Copy, Debug, PartialEq, Eq, Structural)]
pub enum NoOpenSessionError {
    /// There is none.
    NotOpen,
    /// The ledger failed.
    Db(DbError),
}

/// Ended.
pub open spec fn ended(
    reason: Seq<char>,
    by: Seq<char>,
    notes: Option<Seq<char>>,
    now: i64,
) -> spec_fn(SessionView) -> SessionView {
    |s: SessionView|
        SessionView {
            ended_at: Some(now),
            ended_reason: Some(reason),
            ended_by_user_id: Some(by),
            notes,
            ..s
        }
}

/// Ends a submissive's open session.
pub fn end(
    db: &mut Ledger,
    submissive_id: &str,
    ended_reason: &str,
    ended_by_user_id: &str,
    notes: Option<&str>,
    now: i64,
) -> (r: Result<(), NoOpenSessionError>)
    ensures
        final(db)@ == (LedgerView {
            confinements: updated(
                old(db)@.confinements,
                open_session(submissive_id@),
                ended(ended_reason@, ended_by_user_id@, notes.deep_view(), now),
            ),
            ..old(db)@
        }),
        r == (if any_row(old(db)@.confinements, open_session(submissive_id@)) {
            Ok::<(), NoOpenSessionError>(())
        } else {
            Err(NoOpenSessionError::NotOpen)
        }),
{
    let ghost p = open_session(submissive_id@);
    let ghost u = ended(ended_reason@, ended_by_user_id@, notes.deep_view(), now);
    let change = |s: &Session| -> (n: Option<Session>)
        ensures
            match n {
                Some(x) => p(s@) && x@ == u(s@),
                None => !p(s@),
            },
        {
            if same(s.submissive_id.as_str(), submissive_id) && s.ended_at.is_none() {
                let mut n = s.dup();
                n.ended_at = Some(now);
                n.ended_reason = Some(own(ended_reason));
                n.ended_by_user_id = Some(own(ended_by_user_id));
                n.notes = own_opt(notes);

                Some(n)
            } else {
                None
            }
        };
    if update(&mut db.confinements, Ghost(p), Ghost(u), change) {
        Ok(())
    } else {
        Err(NoOpenSessionError::NotOpen)
    }
}

/// Why the clock was not paused.
#[derive(Clone, Copy, Debug, PartialEq, Eq, Structural)]
pub enum PauseError {
    /// There is no open session, or its clock is paused.
    NotOpenOrAlreadyPaused,
}

/// This submissive's open session, its clock running.
pub open spec fn ticking(submissive_id: Seq<char>) -> spec_fn(SessionView) -> bool {
    |s: SessionView|
        s.submissive_id == submissive_id && s.ended_at is None && s.clock_paused_at is None
}

/// Its clock paused.
pub open spec fn paused_with(message: Option<Seq<char>>, now: i64) -> spec_fn(
    SessionView,
) -> SessionView {
    |s: SessionView|
        SessionView { clock_paused_at: Some(now), clock_pause_message: message, ..s }
}

/// Pauses the clock of a submissive's open session.
pub fn pause(db: &mut Ledger, submissive_id: &str, message: Option<&str>, now: i64) -> (r: Result<
    (),
    PauseError,
>)
    ensures
        final(db)@ == (LedgerView {
            confinements: updated(
                old(db)@.confinements,
                ticking(submissive_id@),
                paused_with(message.deep_view(), now),
            ),
            ..old(db)@
        }),
        r == (if any_row(old(db)@.confinements, ticking(submissive_id@)) {
            Ok::<(), PauseError>(())
        } else {
            Err(PauseError::NotOpenOrAlreadyPaused)
        }),
{
    let ghost p = ticking(submissive_id@);
    let ghost u = paused_with(message.deep_view(), now);
    let change = |s: &Session| -> (n: Option<Session>)
        ensures
            match n {
                Some(x) => p(s@) && x@ == u(s@),
                None => !p(s@),
            },
        {
            if same(s.submissive_id.as_str(), submissive_id) && s.ended_at.is_none()
                && s.clock_paused_at.is_none() {
                let mut n = s.dup();
                n.clock_paused_at = Some(now);
                n.clock_pause_message = own_opt(message);

                Some(n)
            } else {
                None
            }
        };
    if update(&mut db.confinements, Ghost(p), Ghost(u), change) {
        Ok(())
    } else {
        Err(PauseError::NotOpenOrAlreadyPaused)
    }
}

/// Why nothing was done to a paused session.
#[derive(Clone, Copy, Debug, PartialEq, Eq, Structural)]
pub enum NotPausedError {
    /// There is none.
    NotPaused,
    /// The ledger failed.
    Db(DbError),
}

/// This submissive's open session, its clock paused.
pub open spec fn paused(submissive_id: Seq<char>) -> spec_fn(SessionView) -> bool {
    |s: SessionView|
        s.submissive_id == submissive_id && s.ended_at is None && s.clock_paused_at is Some
}

/// With this message on the pause.
pub open spec fn with_message(message: Option<Seq<char>>) -> spec_fn(SessionView) -> SessionView {
    |s: SessionView| SessionView { clock_pause_message: message, ..s }
}

/// Changes the message on a pause.
pub fn update_pause_message(db: &mut Ledger, submissive_id: &str, message: Option<&str>) -> (r: Result<
    (),
    NotPausedError,
>)
    ensures
        final(db)@ == (LedgerView {
            confinements: updated(
                old(db)@.confinements,
                paused(submissive_id@),
                with_message(message.deep_view()),
            ),
            ..old(db)@
        }),
        r == (if any_row(old(db)@.confinements, paused(submissive_id@)) {
            Ok::<(), NotPausedError>(())
        } else {
            Err(NotPausedError::NotPaused)
        }),
{
    let ghost p = paused(submissive_id@);
    let ghost u = with_message(message.deep_view());
    let change = |s: &Session| -> (n: Option<Session>)
        ensures
            match n {
                Some(x) => p(s@) && x@ == u(s@),
                None => !p(s@),
            },
        {
            if same(s.submissive_id.as_str(), submissive_id) && s.ended_at.is_none()
                && s.clock_paused_at.is_some() {
                let mut n = s.dup();
                n.clock_pause_message = own_opt(message);

                Some(n)
            } else {
                None
            }
        };
    if update(&mut db.confinements, Ghost(p), Ghost(u), change) {
        Ok(())
    } else {
        Err(NotPausedError::NotPaused)
    }
}

/// Its clock running again, towards this release time where one is given.
pub open spec fn resumed_to(target: Option<i64>) -> spec_fn(SessionView) -> SessionView {
    |s: SessionView|
        SessionView {
            target_release_at: match target {
                Some(t) => Some(t),
                None => s.target_release_at,
            },
            clock_paused_at: None,
            clock_pause_message: None,
            ..s
        }
}

/// The ledger after a resume: a release time that was planned moves by exactly the time that the
/// clock stood still, and an adjustment carries the message of the pause; a session without one
/// has nothing to extend.
pub open spec fn resumed(
    db: LedgerView,
    submissive_id: Seq<char>,
    by: Seq<char>,
    adjustment_id: Seq<char>,
    now: i64,
) -> Result<LedgerView, NotPausedError> {
    match find_row(db.confinements, paused(submissive_id)) {
        None => Err(NotPausedError::NotPaused),
        Some(s) => match stored(now - s.clock_paused_at->0) {
            Err(e) => Err(NotPausedError::Db(e)),
            Ok(elapsed) => match s.target_release_at {
                None => Ok(
                    LedgerView {
                        confinements: updated(db.confinements, by_id(s.id), resumed_to(None)),
                        ..db
                    },
                ),
                Some(target) => match stored(target + elapsed) {
                    Err(e) => Err(NotPausedError::Db(e)),
                    Ok(moved) => Ok(
                        LedgerView {
                            confinements: updated(
                                db.confinements,
                                by_id(s.id),
                                resumed_to(Some(moved)),
                            ),
                            adjustments: db.adjustments.push(
                                AdjustmentRowView {
                                    id: adjustment_id,
                                    session_id: s.id,
                                    delta_seconds: elapsed,
                                    reason: "clock_pause"@,
                                    caused_by_assignment_id: None,
                                    adjusted_by_user_id: Some(by),
                                    adjusted_at: now,
                                    notes: s.clock_pause_message,
                                    keyholder_reviewed_at: Some(now),
                                },
                            ),
                            ..db
                        },
                    ),
                },
            },
        },
    }
}

/// Resumes a paused clock; an adjustment gets the id `adjustment_id`.
pub fn resume_as(
    db: &mut Ledger,
    submissive_id: &str,
    resumed_by_user_id: &str,
    adjustment_id: String,
    now: i64,
) -> (r: Result<(), NotPausedError>)
    ensures
        match resumed(old(db)@, submissive_id@, resumed_by_user_id@, adjustment_id@, now) {
            Ok(after) => r is Ok && final(db)@ == after,
            Err(e) => r == Err::<(), NotPausedError>(e) && final(db)@ == old(db)@,
        },
{
    let ghost q = paused(submissive_id@);
    let test = |s: &Session| -> (b: bool)
        ensures
            b == q(s@),
        { same(s.submissive_id.as_str(), submissive_id) && s.ended_at.is_none()
            && s.clock_paused_at.is_some() };
    proof {
        lemma_find_any(db@.confinements, q);
    }
    let session = match find(&db.confinements, Ghost(q), test) {
        Some(s) => s.dup(),
        None => {
            return Err(NotPausedError::NotPaused);
        },
    };
    let since: i64 = match session.clock_paused_at {
        Some(t) => t,
        None => {
            return Err(NotPausedError::NotPaused);
        },
    };
    let elapsed = match minus(now, since) {
        Ok(e) => e,
        Err(e) => {
            return Err(NotPausedError::Db(e));
        },
    };
    let target: Option<i64> = match session.target_release_at {
        None => None,
        Some(t) => match plus(t, elapsed) {
            Ok(t) => Some(t),
            Err(e) => {
                return Err(NotPausedError::Db(e));
            },
        },
    };
    let session_id = session.id;
    let ghost p = by_id(session_id@);
    let ghost u = resumed_to(target);
    let change = |s: &Session| -> (n: Option<Session>)
        ensures
            match n {
                Some(x) => p(s@) && x@ == u(s@),
                None => !p(s@),
            },
        {
            if same(s.id.as_str(), session_id.as_str()) {
                let mut n = s.dup();
                if let Some(t) = target {
                    n.target_release_at = Some(t);
                }
                n.clock_paused_at = None;
                n.clock_pause_message = None;

                Some(n)
            } else {
                None
            }
        };
    update(&mut db.confinements, Ghost(p), Ghost(u), change);
    if target.is_some() {
        insert(
            &mut db.adjustments,
            AdjustmentRow {
                id: adjustment_id,
                session_id,
                delta_seconds: elapsed,
                reason: own("clock_pause"),
                caused_by_assignment_id: None,
                adjusted_by_user_id: Some(own(resumed_by_user_id)),
                adjusted_at: now,
                notes: session.clock_pause_message,
                keyholder_reviewed_at: Some(now),
            },
        );
    }
    Ok(())
}

/// Resumes a paused clock.
pub fn resume(db: &mut Ledger, submissive_id: &str, resumed_by_user_id: &str, now: i64) -> (r: Result<
    (),
    NotPausedError,
>)
    ensures
        exists|adjustment_id: Seq<char>|
            is_id(adjustment_id) && match #[trigger] resumed(
                old(db)@,
                submissive_id@,
                resumed_by_user_id@,
                adjustment_id,
                now,
            ) {
                Ok(after) => r is Ok && final(db)@ == after,
                Err(e) => r == Err::<(), NotPausedError>(e) && final(db)@ == old(db)@,
            },
{
    let id = new_id();
    resume_as(db, submissive_id, resumed_by_user_id, id, now)
}

/// The title of the assignment that caused an adjustment.
pub open spec fn cause_title(
    assignments: Seq<assignments::AssignmentView>,
    id: Option<Seq<char>>,
) -> Option<Seq<char>> {
    match id {
        None => None,
        Some(id) => match find_row(assignments, assignments::by_id(id)) {
            None => None,
            Some(a) => Some(a.title),
        },
    }
}

/// Looks up the title of the assignment that caused an adjustment.
fn find_cause_title(db: &Ledger, id: &Option<String>) -> (r: Option<String>)
    ensures
        r.deep_view() == cause_title(db@.assignments, id.deep_view()),
{
    match id {
        None => None,
        Some(id) => match assignments::get(db, id.as_str()) {
            None => None,
            Some(a) => Some(a.title),
        },
    }
}

/// An adjustment as listings show it.
pub open spec fn shown(assignments: Seq<assignments::AssignmentView>) -> spec_fn(
    AdjustmentRowView,
) -> AdjustmentView {
    |a: AdjustmentRowView|
        AdjustmentView {
            id: a.id,
            delta_seconds: a.delta_seconds,
            reason: a.reason,
            adjusted_by_user_id: a.adjusted_by_user_id,
            adjusted_at: a.adjusted_at,
            notes: a.notes,
            keyholder_reviewed_at: a.keyholder_reviewed_at,
            caused_by_title: cause_title(assignments, a.caused_by_assignment_id),
        }
}

/// Shows a list of adjustments.
fn show_all(db: &Ledger, found: &Vec<AdjustmentRow>) -> (r: Vec<Adjustment>)
    ensures
        rows(r@) == rows(found@).map_values(shown(db@.assignments)),
{
    let mut out: Vec<Adjustment> = Vec::new();
    let mut i: usize = 0;
    while i < found.len()
        invariant
            i <= found@.len(),
            out@.len() == i,
            forall|j: int| 0 <= j < i ==> #[trigger] out@[j]@ == shown(db@.assignments)(found@[j]@),
        decreases found@.len() - i,
    {
        let a = &found[i];
        out.push(
            Adjustment {
                id: a.id.clone(),
                delta_seconds: a.delta_seconds,
                reason: a.reason.clone(),
                adjusted_by_user_id: dup_opt(&a.adjusted_by_user_id),
                adjusted_at: a.adjusted_at,
                notes: dup_opt(&a.notes),
                keyholder_reviewed_at: a.keyholder_reviewed_at,
                caused_by_title: find_cause_title(db, &a.caused_by_assignment_id),
            },
        );
        i = i + 1;
    }
    assert(rows(out@) =~= rows(found@).map_values(shown(db@.assignments)));
    out
}

/// Newest first.
pub open spec fn latest_adjustment_first() -> spec_fn(AdjustmentRowView, AdjustmentRowView) -> bool {
    |a: AdjustmentRowView, b: AdjustmentRowView| a.adjusted_at >= b.adjusted_at
}

/// An adjustment of one of these sessions.
pub open spec fn of_sessions(session_ids: Seq<Seq<char>>) -> spec_fn(AdjustmentRowView) -> bool {
    |a: AdjustmentRowView| session_ids.contains(a.session_id)
}

/// A list of adjustments: those of some sessions, newest first, each with its cause.
pub open spec fn adjustments_listed(
    r: Seq<AdjustmentView>,
    db: LedgerView,
    session_ids: Seq<Seq<char>>,
) -> bool {
    exists|found: Seq<AdjustmentRowView>|
        #[trigger] ordered_from(
            found,
            db.adjustments.filter(of_sessions(session_ids)),
            latest_adjustment_first(),
        ) && r == found.map_values(shown(db.assignments))
}

/// Lists the adjustments of some sessions.
fn list_for_sessions(db: &Ledger, session_ids: &[String]) -> (r: Vec<Adjustment>)
    ensures
        adjustments_listed(rows(r@), db@, session_ids.deep_view()),
{
    let ghost p = of_sessions(session_ids.deep_view());
    let ghost le = latest_adjustment_first();
    let test = |a: &AdjustmentRow| -> (b: bool)
        ensures
            b == p(a@),
        { listed(session_ids, a.session_id.as_str()) };
    let before = |a: &AdjustmentRow, b: &AdjustmentRow| -> (c: bool)
        ensures
            c == le(a@, b@),
        { a.adjusted_at >= b.adjusted_at };
    let found = order(select(&db.adjustments, Ghost(p), test), Ghost(le), before);
    let out = show_all(db, &found);
    assert(ordered_from(rows(found@), db@.adjustments.filter(p), le));
    out
}

/// The adjustments of one session, newest first.
pub fn list_adjustments(db: &Ledger, session_id: &str) -> (r: Vec<Adjustment>)
    ensures
        adjustments_listed(rows(r@), db@, seq![session_id@]),
{
    let mut ids: Vec<String> = Vec::new();
    ids.push(own(session_id));
    assert(ids.deep_view() =~= seq![session_id@]);
    list_for_sessions(db, ids.as_slice())
}

/// The ids of a submissive's sessions.
pub open spec fn session_ids_of(db: LedgerView, submissive_id: Seq<char>) -> Seq<Seq<char>> {
    db.confinements.filter(of_submissive(submissive_id)).map_values(|s: SessionView| s.id)
}

/// The adjustments of all of a submissive's sessions, newest first.
pub fn list_adjustments_for_submissive(db: &Ledger, submissive_id: &str) -> (r: Vec<Adjustment>)
    ensures
        adjustments_listed(rows(r@), db@, session_ids_of(db@, submissive_id@)),
{
    let ghost p = of_submissive(submissive_id@);
    let test = |s: &Session| -> (b: bool)
        ensures
            b == p(s@),
        { same(s.submissive_id.as_str(), submissive_id) };
    let found = select(&db.confinements, Ghost(p), test);
    let mut ids: Vec<String> = Vec::new();
    let mut i: usize = 0;
    while i < found.len()
        invariant
            i <= found@.len(),
            ids@.len() == i,
            forall|j: int| 0 <= j < i ==> #[trigger] ids@[j]@ == found@[j]@.id,
        decreases found@.len() - i,
    {
        ids.push(found[i].id.clone());
        i = i + 1;
    }
    assert(ids.deep_view() =~= rows(found@).map_values(|s: SessionView| s.id));
    list_for_sessions(db, ids.as_slice())
}

/// A link of this submissive among these.
pub open spec fn link_among(submissive_id: Seq<char>, link_ids: Seq<Seq<char>>) -> spec_fn(
    links::LinkView,
) -> bool {
    |l: links::LinkView| l.submissive_id == submissive_id && link_ids.contains(l.id)
}

/// How an adjustment shows up among those that wait for a Keyholder: an extension that was
/// applied automatically and not reviewed, once for each of the links that its submissive has
/// among these.
pub open spec fn waiting(db: LedgerView, a: AdjustmentRowView, link_ids: Seq<Seq<char>>) -> Seq<
    UnreviewedAdjustmentView,
> {
    match find_row(db.confinements, by_id(a.session_id)) {
        Some(s) if a.keyholder_reviewed_at is None && a.reason == "punishment_time_extension"@ => {
            Seq::new(
                db.links.filter(link_among(s.submissive_id, link_ids)).len(),
                |i: int|
                    UnreviewedAdjustmentView {
                        submissive_id: s.submissive_id,
                        delta_seconds: a.delta_seconds,
                        adjusted_at: a.adjusted_at,
                        caused_by_title: cause_title(db.assignments, a.caused_by_assignment_id),
                    },
            )
        },
        _ => Seq::empty(),
    }
}

/// Those of the first `n` adjustments that wait for a Keyholder.
pub open spec fn all_waiting(db: LedgerView, link_ids: Seq<Seq<char>>, n: nat) -> Seq<
    UnreviewedAdjustmentView,
>
    decreases n,
{
    if n == 0 {
        Seq::empty()
    } else {
        all_waiting(db, link_ids, (n - 1) as nat) + waiting(db, db.adjustments[n - 1], link_ids)
    }
}

/// Newest first.
pub open spec fn latest_waiting_first() -> spec_fn(
    UnreviewedAdjustmentView,
    UnreviewedAdjustmentView,
) -> bool {
    |a: UnreviewedAdjustmentView, b: UnreviewedAdjustmentView| a.adjusted_at >= b.adjusted_at
}

/// The session with this id.
fn find_session<'a>(db: &'a Ledger, id: &str) -> (r: Option<&'a Session>)
    ensures
        r.deep_view() == find_row(db@.confinements, by_id(id@)),
{
    let ghost p = by_id(id@);
    let test = |s: &Session| -> (b: bool)
        ensures
            b == p(s@),
        { same(s.id.as_str(), id) };
    find(&db.confinements, Ghost(p), test)
}

/// How one adjustment shows up among those that wait for a Keyholder.
fn list_waiting(db: &Ledger, a: &AdjustmentRow, link_ids: &[String]) -> (r: Vec<UnreviewedAdjustment>)
    ensures
        rows(r@) == waiting(db@, a@, link_ids.deep_view()),
{
    let mut out: Vec<UnreviewedAdjustment> = Vec::new();
    let waits = a.keyholder_reviewed_at.is_none() && same(
        a.reason.as_str(),
        "punishment_time_extension",
    );
    match find_session(db, a.session_id.as_str()) {
        Some(s) if waits => {
            let ghost p = link_among(s@.submissive_id, link_ids.deep_view());
            let test = |l: &links::Link| -> (b: bool)
                ensures
                    b == p(l@),
                { same(l.submissive_id.as_str(), s.submissive_id.as_str())
                    && listed(link_ids, l.id.as_str()) };
            let n = count(&db.links, Ghost(p), test);
            let ghost row = UnreviewedAdjustmentView {
                submissive_id: s@.submissive_id,
                delta_seconds: a@.delta_seconds,
                adjusted_at: a@.adjusted_at,
                caused_by_title: cause_title(db@.assignments, a@.caused_by_assignment_id),
            };
            while out.len() < n
                invariant
                    out@.len() <= n,
                    row == (UnreviewedAdjustmentView {
                        submissive_id: s@.submissive_id,
                        delta_seconds: a@.delta_seconds,
                        adjusted_at: a@.adjusted_at,
                        caused_by_title: cause_title(db@.assignments, a@.caused_by_assignment_id),
                    }),
                    forall|j: int| 0 <= j < out@.len() ==> #[trigger] out@[j]@ == row,
                decreases n - out@.len(),
            {
                out.push(
                    UnreviewedAdjustment {
                        submissive_id: s.submissive_id.clone(),
                        delta_seconds: a.delta_seconds,
                        adjusted_at: a.adjusted_at,
                        caused_by_title: find_cause_title(db, &a.caused_by_assignment_id),
                    },
                );
            }
        },
        _ => {},
    }
    assert(rows(out@) =~= waiting(db@, a@, link_ids.deep_view()));
    out
}

/// The extensions on a set of links that were applied automatically and wait for a Keyholder,
/// newest first.
pub fn list_unreviewed_adjustments_for_links(db: &Ledger, link_ids: &[String]) -> (r: Vec<
    UnreviewedAdjustment,
>)
    ensures
        ordered_from(
            rows(r@),
            all_waiting(db@, link_ids.deep_view(), db@.adjustments.len()),
            latest_waiting_first(),
        ),
{
    let mut found: Vec<UnreviewedAdjustment> = Vec::new();
    let mut i: usize = 0;
    while i < db.adjustments.len()
        invariant
            i <= db.adjustments@.len(),
            rows(found@) == all_waiting(db@, link_ids.deep_view(), i as nat),
        decreases db.adjustments@.len() - i,
    {
        let ghost before = rows(found@);
        let mut more = list_waiting(db, &db.adjustments[i], link_ids);
        let ghost added = rows(more@);
        found.append(&mut more);
        assert(rows(found@) =~= before + added);
        i = i + 1;
    }
    let ghost le = latest_waiting_first();
    let before = |a: &UnreviewedAdjustment, b: &UnreviewedAdjustment| -> (c: bool)
        ensures
            c == le(a@, b@),
        { a.adjusted_at >= b.adjusted_at };
    order(found, Ghost(le), before)
}

/// An adjustment of this session that waits for review.
pub open spec fn unreviewed(session_id: Seq<char>) -> spec_fn(AdjustmentRowView) -> bool {
    |a: AdjustmentRowView| a.session_id == session_id && a.keyholder_reviewed_at is None
}

/// Reviewed now.
pub open spec fn reviewed(now: i64) -> spec_fn(AdjustmentRowView) -> AdjustmentRowView {
    |a: AdjustmentRowView| AdjustmentRowView { keyholder_reviewed_at: Some(now), ..a }
}

/// The ledger after a Keyholder moved the timer: the release time has moved by the delta, or
/// stands at now plus the delta where none was planned; an adjustment says so; and whatever of
/// this session was waiting for review has been seen.
pub open spec fn timer_adjusted(
    db: LedgerView,
    submissive_id: Seq<char>,
    delta: i64,
    by: Seq<char>,
    notes: Option<Seq<char>>,
    id: Seq<char>,
    now: i64,
) -> Result<LedgerView, NoOpenSessionError> {
    match find_row(db.confinements, open_session(submissive_id)) {
        None => Err(NoOpenSessionError::NotOpen),
        Some(s) => match stored(moved_target(s, delta, now)) {
            Err(e) => Err(NoOpenSessionError::Db(e)),
            Ok(target) => Ok(
                LedgerView {
                    confinements: updated(db.confinements, by_id(s.id), with_target(target)),
                    adjustments: updated(
                        db.adjustments.push(
                            AdjustmentRowView {
                                id,
                                session_id: s.id,
                                delta_seconds: delta,
                                reason: "manual"@,
                                caused_by_assignment_id: None,
                                adjusted_by_user_id: Some(by),
                                adjusted_at: now,
                                notes,
                                keyholder_reviewed_at: Some(now),
                            },
                        ),
                        unreviewed(s.id),
                        reviewed(now),
                    ),
                    ..db
                },
            ),
        },
    }
}

/// Moves the timer of a submissive's open session; the id of the adjustment.
pub fn adjust_timer(
    db: &mut Ledger,
    submissive_id: &str,
    delta_seconds: i64,
    adjusted_by_user_id: &str,
    notes: Option<&str>,
    now: i64,
) -> (r: Result<String, NoOpenSessionError>)
    ensures
        exists|id: Seq<char>|
            is_id(id) && match #[trigger] timer_adjusted(
                old(db)@,
                submissive_id@,
                delta_seconds,
                adjusted_by_user_id@,
                notes.deep_view(),
                id,
                now,
            ) {
                Ok(after) => r is Ok && r->Ok_0@ == id && final(db)@ == after,
                Err(e) => r == Err::<String, NoOpenSessionError>(e) && final(db)@ == old(db)@,
            },
{
    let id = new_id();
    let ghost outcome = timer_adjusted(
        db@,
        submissive_id@,
        delta_seconds,
        adjusted_by_user_id@,
        notes.deep_view(),
        id@,
        now,
    );
    let session = match current(db, submissive_id) {
        Some(s) => s,
        None => {
            assert(outcome is Err);
            return Err(NoOpenSessionError::NotOpen);
        },
    };
    let from: i64 = match session.target_release_at {
        Some(t) => t,
        None => now,
    };
    let target = match plus(from, delta_seconds) {
        Ok(t) => t,
        Err(e) => {
            assert(outcome is Err);
            return Err(NoOpenSessionError::Db(e));
        },
    };
    set_target(db, session.id.as_str(), target);
    insert(
        &mut db.adjustments,
        AdjustmentRow {
            id: id.clone(),
            session_id: session.id.clone(),
            delta_seconds,
            reason: own("manual"),
            caused_by_assignment_id: None,
            adjusted_by_user_id: Some(own(adjusted_by_user_id)),
            adjusted_at: now,
            notes: own_opt(notes),
            keyholder_reviewed_at: Some(now),
        },
    );
    let ghost p = unreviewed(session@.id);
    let ghost u = reviewed(now);
    let change = |a: &AdjustmentRow| -> (n: Option<AdjustmentRow>)
        ensures
            match n {
                Some(x) => p(a@) && x@ == u(a@),
                None => !p(a@),
            },
        {
            if same(a.session_id.as_str(), session.id.as_str())
                && a.keyholder_reviewed_at.is_none() {
                let mut n = a.dup();
                n.keyholder_reviewed_at = Some(now);

                Some(n)
            } else {
                None
            }
        };
    update(&mut db.adjustments, Ghost(p), Ghost(u), change);
    assert(outcome is Ok);
    Ok(id)
}

/// Why an adjustment was not reviewed.
#[derive(Clone, Copy, Debug, PartialEq, Eq, Structural)]
pub enum ReviewAdjustmentError {
    /// There is none with this id that waits for review.
    NotReviewable,
}

/// An extension that was applied automatically and waits for review.
pub open spec fn reviewable(id: Seq<char>) -> spec_fn(AdjustmentRowView) -> bool {
    |a: AdjustmentRowView|
        a.id == id && a.keyholder_reviewed_at is None && a.reason == "punishment_time_extension"@
}

/// Signs off on an extension that was applied automatically.
pub fn review_adjustment(db: &mut Ledger, adjustment_id: &str, now: i64) -> (r: Result<
    (),
    ReviewAdjustmentError,
>)
    ensures
        final(db)@ == (LedgerView {
            adjustments: updated(
                old(db)@.adjustments,
                reviewable(adjustment_id@),
                reviewed(now),
            ),
            ..old(db)@
        }),
        r == (if any_row(old(db)@.adjustments, reviewable(adjustment_id@)) {
            Ok::<(), ReviewAdjustmentError>(())
        } else {
            Err(ReviewAdjustmentError::NotReviewable)
        }),
{
    let ghost p = reviewable(adjustment_id@);
    let ghost u = reviewed(now);
    let change = |a: &AdjustmentRow| -> (n: Option<AdjustmentRow>)
        ensures
            match n {
                Some(x) => p(a@) && x@ == u(a@),
                None => !p(a@),
            },
        {
            if same(a.id.as_str(), adjustment_id) && a.keyholder_reviewed_at.is_none()
                && same(a.reason.as_str(), "punishment_time_extension") {
                let mut n = a.dup();
                n.keyholder_reviewed_at = Some(now);

                Some(n)
            } else {
                None
            }
        };
    if update(&mut db.adjustments, Ghost(p), Ghost(u), change) {
        Ok(())
    } else {
        Err(ReviewAdjustmentError::NotReviewable)
    }
}

/// Where a submissive stands.
#[derive(Debug, PartialEq, Eq)]
pub struct Status {
    pub locked: bool,
    pub session: Option<Session>,
    pub time_remaining_seconds: Option<i64>,
    pub overdue: bool,
    pub clock_paused: bool,
}

/// What a `Status` holds.
#[verifier::ext_equal]
pub struct StatusView {
    pub locked: bool,
    pub session: Option<SessionView>,
    pub time_remaining_seconds: Option<i64>,
    pub overdue: bool,
    pub clock_paused: bool,
}

impl View for Status {
    type V = StatusView;

    open spec fn view(&self) -> StatusView {
        StatusView {
            locked: self.locked,
            session: self.session.deep_view(),
            time_remaining_seconds: self.time_remaining_seconds,
            overdue: self.overdue,
            clock_paused: self.clock_paused,
        }
    }
}

/// Where a submissive stands: what is left until the planned release, which is overdue once that
/// is negative.
pub open spec fn status_of(session: Option<SessionView>, now: i64) -> Result<StatusView, DbError> {
    match session {
        None => Ok(
            StatusView {
                locked: false,
                session,
                time_remaining_seconds: None,
                overdue: false,
                clock_paused: false,
            },
        ),
        Some(s) => match s.target_release_at {
            None => Ok(
                StatusView {
                    locked: true,
                    session,
                    time_remaining_seconds: None,
                    overdue: false,
                    clock_paused: s.clock_paused_at is Some,
                },
            ),
            Some(t) => match stored(t - now) {
                Err(e) => Err(e),
                Ok(left) => Ok(
                    StatusView {
                        locked: true,
                        session,
                        time_remaining_seconds: Some(left),
                        overdue: left < 0,
                        clock_paused: s.clock_paused_at is Some,
                    },
                ),
            },
        },
    }
}

/// Where a submissive stands.
pub fn status_for(db: &Ledger, submissive_id: &str, now: i64) -> (r: Result<Status, DbError>)
    ensures
        match status_of(find_row(db@.confinements, open_session(submissive_id@)), now) {
            Ok(s) => r is Ok && r->Ok_0@ == s,
            Err(e) => r == Err::<Status, DbError>(e),
        },
{
    let session = current(db, submissive_id);
    let mut time_remaining_seconds: Option<i64> = None;
    let mut overdue = false;
    let mut clock_paused = false;
    if let Some(s) = &session {
        clock_paused = s.clock_paused_at.is_some();
        if let Some(t) = s.target_release_at {
            match minus(t, now) {
                Ok(left) => {
                    time_remaining_seconds = Some(left);
                    overdue = left < 0;
                },
                Err(e) => {
                    return Err(e);
                },
            }
        }
    }
    Ok(Status { locked: session.is_some(), session, time_remaining_seconds, overdue, clock_paused })
}

/// How long a pause lasts before the Keyholder is reminded, and again: a day.
pub const STILL_PAUSED_THRESHOLD_SECS: i64 = 86400;

/// An open session paused since this time or before.
pub open spec fn long_paused(since: i64) -> spec_fn(SessionView) -> bool {
    |s: SessionView| s.ended_at is None && (s.clock_paused_at matches Some(t) && t <= since)
}

/// A link of this submissive that has not ended.
pub open spec fn running_link(submissive_id: Seq<char>) -> spec_fn(links::LinkView) -> bool {
    |l: links::LinkView|
        l.submissive_id == submissive_id && (l.status == "active"@ || l.status == "paused"@)
}

/// The reminder that a paused session calls for: none where one was sent since, or where nobody
/// oversees the submissive.
pub open spec fn paused_reminder(db: LedgerView, s: SessionView, since: i64) -> Seq<
    StillPausedReminderView,
> {
    if any_row(
        db.notifications,
        notifications::about_since("confinement.clock_still_paused"@, s.id, since),
    ) {
        Seq::empty()
    } else {
        match find_row(db.links, running_link(s.submissive_id)) {
            None => Seq::empty(),
            Some(l) => seq![
                StillPausedReminderView { session_id: s.id, keyholder_id: l.keyholder_id },
            ],
        }
    }
}

/// The reminders that the first `n` of some sessions call for.
pub open spec fn paused_reminders(
    db: LedgerView,
    sessions: Seq<SessionView>,
    since: i64,
    n: nat,
) -> Seq<StillPausedReminderView>
    decreases n,
{
    if n == 0 {
        Seq::empty()
    } else {
        paused_reminders(db, sessions, since, (n - 1) as nat) + paused_reminder(
            db,
            sessions[n - 1],
            since,
        )
    }
}

/// Says for which sessions the Keyholder is to be reminded of a clock that has stood still for a
/// day: each at most once a day.
pub fn run_still_paused_sweep_tick(db: &Ledger, now: i64) -> (r: Result<
    Vec<StillPausedReminder>,
    DbError,
>)
    ensures
        match stored(now - STILL_PAUSED_THRESHOLD_SECS) {
            Err(e) => r == Err::<Vec<StillPausedReminder>, DbError>(e),
            Ok(since) => r is Ok && rows(r->Ok_0@) == paused_reminders(
                db@,
                db@.confinements.filter(long_paused(since)),
                since,
                db@.confinements.filter(long_paused(since)).len(),
            ),
        },
{
    let since = match minus(now, STILL_PAUSED_THRESHOLD_SECS) {
        Ok(s) => s,
        Err(e) => {
            return Err(e);
        },
    };
    let ghost p = long_paused(since);
    let test = |s: &Session| -> (b: bool)
        ensures
            b == p(s@),
        {
            s.ended_at.is_none() && match s.clock_paused_at {
                Some(t) => t <= since,
                None => false,
            }
        };
    let found = select(&db.confinements, Ghost(p), test);
    let mut out: Vec<StillPausedReminder> = Vec::new();
    let mut i: usize = 0;
    assert(rows(out@) =~= paused_reminders(db@, rows(found@), since, 0));
    while i < found.len()
        invariant
            i <= found@.len(),
            rows(out@) == paused_reminders(db@, rows(found@), since, i as nat),
        decreases found@.len() - i,
    {
        let ghost before = rows(out@);
        let s = &found[i];
        assert(rows(found@)[i as int] == s@);
        if !notifications::exists_for_related_entity_since(
            db,
            "confinement.clock_still_paused",
            s.id.as_str(),
            since,
        ) {
            let ghost q = running_link(s@.submissive_id);
            let oversees = |l: &links::Link| -> (b: bool)
                ensures
                    b == q(l@),
                {
                    same(l.submissive_id.as_str(), s.submissive_id.as_str()) && (same(
                        l.status.as_str(),
                        "active",
                    ) || same(l.status.as_str(), "paused"))
                };
            if let Some(l) = find(&db.links, Ghost(q), oversees) {
                out.push(
                    StillPausedReminder {
                        session_id: s.id.clone(),
                        keyholder_id: l.keyholder_id.clone(),
                    },
                );
            }
        }
        assert(rows(out@) =~= before + paused_reminder(db@, s@, since));
        i = i + 1;
    }
    Ok(out)
}

/// A pause costs no time: over a pause and a resume the planned release moves by exactly the time
/// that the clock stood still, so that what is left at the resume is what was left at the pause.
pub proof fn law_pause_costs_no_time(
    db: LedgerView,
    submissive_id: Seq<char>,
    by: Seq<char>,
    message: Option<Seq<char>>,
    adjustment_id: Seq<char>,
    start: i64,
    stop: i64,
)
    requires
        forall|i: int, j: int|
            0 <= i < j < db.confinements.len() ==> !(open_session(submissive_id)(
                #[trigger] db.confinements[i],
            ) && open_session(submissive_id)(#[trigger] db.confinements[j])),
        find_row(db.confinements, ticking(submissive_id)) is Some,
        find_row(db.confinements, ticking(submissive_id))->0.target_release_at is Some,
        stored(stop - start) is Ok,
        stored(
            find_row(db.confinements, ticking(submissive_id))->0.target_release_at->0 + (stop
                - start),
        ) is Ok,
    ensures
        ({
            let s = find_row(db.confinements, ticking(submissive_id))->0;
            let standing = LedgerView {
                confinements: updated(
                    db.confinements,
                    ticking(submissive_id),
                    paused_with(message, start),
                ),
                ..db
            };
            let after = resumed(standing, submissive_id, by, adjustment_id, stop);
            &&& after is Ok
            &&& find_row(after->Ok_0.confinements, open_session(submissive_id)) == Some(
                SessionView {
                    target_release_at: Some((s.target_release_at->0 + (stop - start)) as i64),
                    clock_paused_at: None,
                    clock_pause_message: None,
                    ..s
                },
            )
            &&& after->Ok_0.adjustments == db.adjustments.push(
                AdjustmentRowView {
                    id: adjustment_id,
                    session_id: s.id,
                    delta_seconds: (stop - start) as i64,
                    reason: "clock_pause"@,
                    caused_by_assignment_id: None,
                    adjusted_by_user_id: Some(by),
                    adjusted_at: stop,
                    notes: message,
                    keyholder_reviewed_at: Some(stop),
                },
            )
        }),
{
    let t = ticking(submissive_id);
    let u = paused_with(message, start);
    let s = find_row(db.confinements, t)->0;
    let standing = updated(db.confinements, t, u);
    lemma_find_any(db.confinements, t);
    let k = choose|k: int| 0 <= k < db.confinements.len() && db.confinements[k] == s;
    let q = paused(submissive_id);
    let o = open_session(submissive_id);
    assert forall|j: int| 0 <= j < standing.len() && j != k implies !q(#[trigger] standing[j])
        && !o(
        standing[j],
    ) by {
        if j < k {
            assert(!(o(db.confinements[j]) && o(db.confinements[k])));
        } else {
            assert(!(o(db.confinements[k]) && o(db.confinements[j])));
        }
    }
    assert(q(standing[k]));
    lemma_find_at(standing, q, k);
    assert(o(standing[k]));
    lemma_find_at(standing, o, k);
    let moved = (s.target_release_at->0 + (stop - start)) as i64;
    lemma_find_updated(standing, o, by_id(s.id), resumed_to(Some(moved)));
}

/// A session that was ended is not open: there is nothing left to end, pause or adjust, and a new
/// one can start.
pub proof fn law_ended_session_is_closed(
    sessions: Seq<SessionView>,
    submissive_id: Seq<char>,
    reason: Seq<char>,
    by: Seq<char>,
    notes: Option<Seq<char>>,
    now: i64,
)
    ensures
        ({
            let after = updated(
                sessions,
                open_session(submissive_id),
                ended(reason, by, notes, now),
            );
            &&& !any_row(after, open_session(submissive_id))
            &&& find_row(after, open_session(submissive_id)) is None
            &&& !any_row(after, ticking(submissive_id))
            &&& !any_row(after, paused(submissive_id))
        }),
{
    let after = updated(sessions, open_session(submissive_id), ended(reason, by, notes, now));
    assert forall|i: int| 0 <= i < after.len() implies !open_session(submissive_id)(
        #[trigger] after[i],
    ) by {}
    lemma_find_any(after, open_session(submissive_id));
}

/// A session that was started is the open one, and no second can be.
pub proof fn law_started_session_is_current(
    db: LedgerView,
    id: Seq<char>,
    new: StartSessionView,
    now: i64,
)
    requires
        !any_row(db.confinements, open_session(new.submissive_id)),
    ensures
        ({
            let after = db.confinements.push(new_session(id, new, now));
            &&& find_row(after, open_session(new.submissive_id)) == Some(new_session(id, new, now))
            &&& any_row(after, open_session(new.submissive_id))
        }),
{
    let row = new_session(id, new, now);
    lemma_find_any(db.confinements, open_session(new.submissive_id));
    lemma_find_push(db.confinements, row, open_session(new.submissive_id));
    lemma_find_any(db.confinements.push(row), open_session(new.submissive_id));
}

/// Every move of a planned release is on record: whatever moves it leaves one adjustment more,
/// whose delta is how far it moved from where it stood, or from now where none was planned.
pub proof fn law_every_move_is_on_record(
    db: LedgerView,
    id: Seq<char>,
    effect: ApplyEffectView,
    submissive_id: Seq<char>,
    by: Seq<char>,
    notes: Option<Seq<char>>,
    delta: i64,
    now: i64,
)
    ensures
        effect_applied(db, id, effect, now) matches Ok((after, ApplyEffectOutcome::Applied)) ==> {
            let s = find_row(db.confinements, open_session(effect.submissive_id))->0;
            let t = find_row(after.confinements, open_session(effect.submissive_id))->0;
            &&& after.adjustments.len() == db.adjustments.len() + 1
            &&& after.adjustments.last().session_id == s.id
            &&& t.target_release_at->0 == moved_target(s, after.adjustments.last().delta_seconds, now)
            &&& t == SessionView { target_release_at: t.target_release_at, ..s }
        },
        timer_adjusted(db, submissive_id, delta, by, notes, id, now) matches Ok(after) ==> {
            let s = find_row(db.confinements, open_session(submissive_id))->0;
            let t = find_row(after.confinements, open_session(submissive_id))->0;
            &&& after.adjustments.len() == db.adjustments.len() + 1
            &&& after.adjustments.last().session_id == s.id
            &&& t.target_release_at->0 == moved_target(s, after.adjustments.last().delta_seconds, now)
            &&& t == SessionView { target_release_at: t.target_release_at, ..s }
        },
{
    if let Some(s) = find_row(db.confinements, open_session(effect.submissive_id)) {
        lemma_find_any(db.confinements, open_session(effect.submissive_id));
        lemma_find_updated(
            db.confinements,
            open_session(effect.submissive_id),
            by_id(s.id),
            with_target(moved_target(s, effect.delta_seconds, now) as i64),
        );
    }
    if let Some(s) = find_row(db.confinements, open_session(submissive_id)) {
        lemma_find_any(db.confinements, open_session(submissive_id));
        lemma_find_updated(
            db.confinements,
            open_session(submissive_id),
            by_id(s.id),
            with_target(moved_target(s, delta, now) as i64),
        );
    }
}

/// Without an open session an effect changes nothing.
pub proof fn law_effect_needs_a_session(db: LedgerView, id: Seq<char>, effect: ApplyEffectView, now: i64)
    requires
        !any_row(db.confinements, open_session(effect.submissive_id)),
    ensures
        effect_applied(db, id, effect, now) == Ok::<(LedgerView, ApplyEffectOutcome), DbError>(
            (db, ApplyEffectOutcome::NoOpenSession),
        ),
{
    lemma_find_any(db.confinements, open_session(effect.submissive_id));
}

/// A Keyholder who moves the timer has seen whatever of the session was waiting for review.
pub proof fn law_adjusting_reviews_the_session(
    db: LedgerView,
    submissive_id: Seq<char>,
    delta: i64,
    by: Seq<char>,
    notes: Option<Seq<char>>,
    id: Seq<char>,
    now: i64,
)
    ensures
        timer_adjusted(db, submissive_id, delta, by, notes, id, now) matches Ok(after) ==> !any_row(
            after.adjustments,
            unreviewed(find_row(db.confinements, open_session(submissive_id))->0.id),
        ),
{
    if let Ok(after) = timer_adjusted(db, submissive_id, delta, by, notes, id, now) {
        let s = find_row(db.confinements, open_session(submissive_id))->0;
        assert forall|i: int| 0 <= i < after.adjustments.len() implies !unreviewed(s.id)(
            #[trigger] after.adjustments[i],
        ) by {}
    }
}

/// An adjustment is reviewed once.
pub proof fn law_reviewed_once(adjustments: Seq<AdjustmentRowView>, id: Seq<char>, now: i64)
    ensures
        !any_row(updated(adjustments, reviewable(id), reviewed(now)), reviewable(id)),
{
    let after = updated(adjustments, reviewable(id), reviewed(now));
    assert forall|i: int| 0 <= i < after.len() implies !reviewable(id)(#[trigger] after[i]) by {}
}

proof fn lemma_nobody_reminded(
    db: LedgerView,
    sessions: Seq<SessionView>,
    session_id: Seq<char>,
    since: i64,
    n: nat,
)
    requires
        n <= sessions.len(),
        any_row(
            db.notifications,
            notifications::about_since("confinement.clock_still_paused"@, session_id, since),
        ),
    ensures
        forall|i: int|
            0 <= i < paused_reminders(db, sessions, since, n).len() ==> (
            #[trigger] paused_reminders(db, sessions, since, n)[i]).session_id != session_id,
    decreases n,
{
    if n > 0 {
        lemma_nobody_reminded(db, sessions, session_id, since, (n - 1) as nat);
        let before = paused_reminders(db, sessions, since, (n - 1) as nat);
        let told = paused_reminder(db, sessions[n - 1], since);
        assert forall|i: int| 0 <= i < (before + told).len() implies (
        #[trigger] (before + told)[i]).session_id != session_id by {
            if i < before.len() {
                assert((before + told)[i] == before[i]);
            }
        }
    }
}

/// A Keyholder is reminded of a paused clock at most once a day: after a reminder was sent, no
/// sweep names that session while the reminder is not older than a day.
pub proof fn law_reminded_once_a_day(
    db: LedgerView,
    sessions: Seq<SessionView>,
    session_id: Seq<char>,
    new: notifications::NewNotificationView,
    id: Seq<char>,
    sent_at: i64,
    since: i64,
)
    requires
        new.notification_type == "confinement.clock_still_paused"@,
        new.related_entity_id == Some(session_id),
        since <= sent_at,
    ensures
        ({
            let after = LedgerView {
                notifications: db.notifications.push(notifications::new_row(id, new, sent_at)),
                ..db
            };
            let told = paused_reminders(after, sessions, since, sessions.len());
            forall|i: int| 0 <= i < told.len() ==> (#[trigger] told[i]).session_id != session_id
        }),
{
    let row = notifications::new_row(id, new, sent_at);
    let after = LedgerView { notifications: db.notifications.push(row), ..db };
    assert(after.notifications[db.notifications.len() as int] == row);
    lemma_nobody_reminded(after, sessions, session_id, since, sessions.len());
}

/// A timer moves by exactly what was asked, forward or back and wherever now lies: a planned release
/// at `t` moves to `t + delta`, and where none is planned it is set to `now + delta`. It is refused
/// only without an open session, or where that time cannot be stored. An adjustment says who moved
/// it, by how much and why; of the others, those of the session that waited for review have been
/// reviewed now, and nothing else changes.
pub proof fn law_timer_moves_by_the_delta(
    db: LedgerView,
    submissive_id: Seq<char>,
    delta: i64,
    by: Seq<char>,
    notes: Option<Seq<char>>,
    id: Seq<char>,
    now: i64,
    i: int,
)
    requires
        only(
            db.confinements,
            i,
            |s: SessionView| s.submissive_id == submissive_id && s.ended_at is None,
        ),
        only(db.confinements, i, |s: SessionView| s.id == db.confinements[i].id),
    ensures
        ({
            let s = db.confinements[i];
            let moved: int = match s.target_release_at {
                Some(t) => t + delta,
                None => now + delta,
            };
            match timer_adjusted(db, submissive_id, delta, by, notes, id, now) {
                Err(e) => e == NoOpenSessionError::Db(DbError::OutOfRange) && !(i64::MIN <= moved
                    <= i64::MAX),
                Ok(after) => {
                    &&& after == (LedgerView {
                        confinements: after.confinements,
                        adjustments: after.adjustments,
                        ..db
                    })
                    &&& after.confinements.len() == db.confinements.len()
                    &&& after.confinements[i].target_release_at is Some
                    &&& after.confinements[i].target_release_at->0 == moved
                    &&& after.confinements[i] == (SessionView {
                        target_release_at: after.confinements[i].target_release_at,
                        ..s
                    })
                    &&& forall|j: int|
                        0 <= j < db.confinements.len() && j != i
                            ==> #[trigger] after.confinements[j] == db.confinements[j]
                    &&& after.adjustments.len() == db.adjustments.len() + 1
                    &&& after.adjustments.last() == (AdjustmentRowView {
                        id,
                        session_id: s.id,
                        delta_seconds: delta,
                        reason: "manual"@,
                        caused_by_assignment_id: None,
                        adjusted_by_user_id: Some(by),
                        adjusted_at: now,
                        notes,
                        keyholder_reviewed_at: Some(now),
                    })
                    &&& forall|j: int|
                        0 <= j < db.adjustments.len() ==> #[trigger] after.adjustments[j]
                            == (AdjustmentRowView {
                            keyholder_reviewed_at: if db.adjustments[j].session_id == s.id
                                && db.adjustments[j].keyholder_reviewed_at is None {
                                Some(now)
                            } else {
                                db.adjustments[j].keyholder_reviewed_at
                            },
                            ..db.adjustments[j]
                        })
                },
            }
        }),
{
    let open = |s: SessionView| s.submissive_id == submissive_id && s.ended_at is None;
    let named = |s: SessionView| s.id == db.confinements[i].id;
    lemma_find_only(db.confinements, i, open, open_session(submissive_id));
    assert forall|j: int| 0 <= j < db.confinements.len() && j != i implies (
    #[trigger] db.confinements[j]).id != db.confinements[i].id by {
        assert(!named(db.confinements[j]));
    }
}

/// Two moves of a timer come to the same as one by their sum.
pub proof fn law_moves_of_a_timer_add_up(
    db: LedgerView,
    submissive_id: Seq<char>,
    first: i64,
    second: i64,
    both: i64,
    by: Seq<char>,
    notes: Option<Seq<char>>,
    ids: (Seq<char>, Seq<char>),
    now: i64,
    later: i64,
    i: int,
)
    requires
        both == first + second,
        only(
            db.confinements,
            i,
            |s: SessionView| s.submissive_id == submissive_id && s.ended_at is None,
        ),
        only(db.confinements, i, |s: SessionView| s.id == db.confinements[i].id),
        timer_adjusted(db, submissive_id, first, by, notes, ids.0, now) is Ok,
    ensures
        ({
            let half = timer_adjusted(db, submissive_id, first, by, notes, ids.0, now)->Ok_0;
            match (
                timer_adjusted(half, submissive_id, second, by, notes, ids.1, later),
                timer_adjusted(db, submissive_id, both, by, notes, ids.0, now),
            ) {
                (Ok(twice), Ok(once)) => twice.confinements[i] == once.confinements[i],
                (Err(_), Err(_)) => true,
                _ => false,
            }
        }),
{
    law_timer_moves_by_the_delta(db, submissive_id, first, by, notes, ids.0, now, i);
    law_timer_moves_by_the_delta(db, submissive_id, both, by, notes, ids.0, now, i);
    let half = timer_adjusted(db, submissive_id, first, by, notes, ids.0, now)->Ok_0;
    let open = |s: SessionView| s.submissive_id == submissive_id && s.ended_at is None;
    let named = |s: SessionView| s.id == db.confinements[i].id;
    let named_now = |s: SessionView| s.id == half.confinements[i].id;
    assert forall|j: int| 0 <= j < half.confinements.len() && j != i implies !open(
        #[trigger] half.confinements[j],
    ) && !named_now(half.confinements[j]) by {
        assert(half.confinements[j] == db.confinements[j]);
        assert(!open(db.confinements[j]));
        assert(!named(db.confinements[j]));
    }
    law_timer_moves_by_the_delta(half, submissive_id, second, by, notes, ids.1, later, i);
}

/// Without an open session there is no timer to move.
pub proof fn law_no_session_no_timer(
    db: LedgerView,
    submissive_id: Seq<char>,
    delta: i64,
    by: Seq<char>,
    notes: Option<Seq<char>>,
    id: Seq<char>,
    now: i64,
)
    requires
        forall|j: int|
            0 <= j < db.confinements.len() ==> !((#[trigger] db.confinements[j]).submissive_id
                == submissive_id && db.confinements[j].ended_at is None),
    ensures
        timer_adjusted(db, submissive_id, delta, by, notes, id, now) == Err::<
            LedgerView,
            NoOpenSessionError,
        >(NoOpenSessionError::NotOpen),
{
    lemma_find_any(db.confinements, open_session(submissive_id));
}

/// An effect moves the planned release of the open session by exactly its delta, from where it
/// stood or from now where none was planned, and an adjustment says why. It is reviewed at once
/// where it came with the Keyholder's own hand, and waits for review where it did not.
pub proof fn law_effect_moves_by_the_delta(
    db: LedgerView,
    id: Seq<char>,
    effect: ApplyEffectView,
    now: i64,
    i: int,
)
    requires
        only(
            db.confinements,
            i,
            |s: SessionView| s.submissive_id == effect.submissive_id && s.ended_at is None,
        ),
        only(db.confinements, i, |s: SessionView| s.id == db.confinements[i].id),
    ensures
        ({
            let s = db.confinements[i];
            let moved: int = match s.target_release_at {
                Some(t) => t + effect.delta_seconds,
                None => now + effect.delta_seconds,
            };
            match effect_applied(db, id, effect, now) {
                Err(e) => !(i64::MIN <= moved <= i64::MAX),
                Ok((after, outcome)) => {
                    &&& outcome == ApplyEffectOutcome::Applied
                    &&& after == (LedgerView {
                        confinements: after.confinements,
                        adjustments: after.adjustments,
                        ..db
                    })
                    &&& after.confinements.len() == db.confinements.len()
                    &&& after.confinements[i].target_release_at is Some
                    &&& after.confinements[i].target_release_at->0 == moved
                    &&& after.confinements[i] == (SessionView {
                        target_release_at: after.confinements[i].target_release_at,
                        ..s
                    })
                    &&& forall|j: int|
                        0 <= j < db.confinements.len() && j != i
                            ==> #[trigger] after.confinements[j] == db.confinements[j]
                    &&& after.adjustments == db.adjustments.push(
                        AdjustmentRowView {
                            id,
                            session_id: s.id,
                            delta_seconds: effect.delta_seconds,
                            reason: effect.reason,
                            caused_by_assignment_id: Some(effect.caused_by_assignment_id),
                            adjusted_by_user_id: effect.adjusted_by_user_id,
                            adjusted_at: now,
                            notes: None,
                            keyholder_reviewed_at: if effect.already_reviewed {
                                Some(now)
                            } else {
                                None
                            },
                        },
                    )
                },
            }
        }),
{
    let open = |s: SessionView| s.submissive_id == effect.submissive_id && s.ended_at is None;
    let named = |s: SessionView| s.id == db.confinements[i].id;
    lemma_find_only(db.confinements, i, open, open_session(effect.submissive_id));
    assert forall|j: int| 0 <= j < db.confinements.len() && j != i implies (
    #[trigger] db.confinements[j]).id != db.confinements[i].id by {
        assert(!named(db.confinements[j]));
    }
}

/// A session starts now, unpaused, on the device and towards the release that were given.
pub proof fn law_a_session_starts_as_asked(id: Seq<char>, new: StartSessionView, now: i64)
    ensures
        ({
            let s = new_session(id, new, now);
            &&& s.id == id && s.submissive_id == new.submissive_id && s.device_id == new.device_id
            &&& s.started_at == now && s.ended_at is None
            &&& s.target_release_at == new.target_release_at
            &&& s.clock_paused_at is None && s.clock_pause_message is None
            &&& s.started_reason == new.started_reason && s.ended_reason is None
            &&& s.ended_by_user_id is None && s.notes == new.notes
        }),
{
}

/// Ending ends the open session of the submissive and touches no other: not one that has ended, nor
/// anybody else's. It is refused exactly where there is none.
pub proof fn law_ending_ends_the_open_session(
    sessions: Seq<SessionView>,
    submissive_id: Seq<char>,
    reason: Seq<char>,
    by: Seq<char>,
    notes: Option<Seq<char>>,
    now: i64,
    i: int,
)
    requires
        0 <= i < sessions.len(),
    ensures
        ({
            let s = sessions[i];
            let after = updated(
                sessions,
                open_session(submissive_id),
                ended(reason, by, notes, now),
            );
            &&& after.len() == sessions.len()
            &&& s.submissive_id == submissive_id && s.ended_at is None ==> after[i] == (
            SessionView {
                ended_at: Some(now),
                ended_reason: Some(reason),
                ended_by_user_id: Some(by),
                notes,
                ..s
            })
            &&& !(s.submissive_id == submissive_id && s.ended_at is None) ==> after[i] == s
        }),
        any_row(sessions, open_session(submissive_id)) == any_row(
            sessions,
            |s: SessionView| s.submissive_id == submissive_id && s.ended_at is None,
        ),
{
    lemma_any_same(
        sessions,
        |s: SessionView| s.submissive_id == submissive_id && s.ended_at is None,
        open_session(submissive_id),
    );
}

/// Pausing stops the clock of the submissive's open session now, with the message given, and leaves
/// its planned release; a session that is paused already, has ended or is another's is not touched.
pub proof fn law_pausing_stops_the_clock(
    sessions: Seq<SessionView>,
    submissive_id: Seq<char>,
    message: Option<Seq<char>>,
    now: i64,
    i: int,
)
    requires
        0 <= i < sessions.len(),
    ensures
        ({
            let s = sessions[i];
            let after = updated(sessions, ticking(submissive_id), paused_with(message, now));
            let running = s.submissive_id == submissive_id && s.ended_at is None
                && s.clock_paused_at is None;
            &&& after.len() == sessions.len()
            &&& running ==> after[i] == (SessionView {
                clock_paused_at: Some(now),
                clock_pause_message: message,
                ..s
            })
            &&& !running ==> after[i] == s
        }),
        any_row(sessions, ticking(submissive_id)) == any_row(
            sessions,
            |s: SessionView|
                s.submissive_id == submissive_id && s.ended_at is None && s.clock_paused_at is None,
        ),
{
    lemma_any_same(
        sessions,
        |s: SessionView|
            s.submissive_id == submissive_id && s.ended_at is None && s.clock_paused_at is None,
        ticking(submissive_id),
    );
}

/// A message of a pause is replaced while the clock stands, and nothing else of the session is.
pub proof fn law_messages_are_for_pauses(
    sessions: Seq<SessionView>,
    submissive_id: Seq<char>,
    message: Option<Seq<char>>,
    i: int,
)
    requires
        0 <= i < sessions.len(),
    ensures
        ({
            let s = sessions[i];
            let after = updated(sessions, paused(submissive_id), with_message(message));
            let standing = s.submissive_id == submissive_id && s.ended_at is None
                && s.clock_paused_at is Some;
            &&& after.len() == sessions.len()
            &&& standing ==> after[i] == (SessionView { clock_pause_message: message, ..s })
            &&& !standing ==> after[i] == s
        }),
        any_row(sessions, paused(submissive_id)) == any_row(
            sessions,
            |s: SessionView|
                s.submissive_id == submissive_id && s.ended_at is None && s.clock_paused_at is Some,
        ),
{
    lemma_any_same(
        sessions,
        |s: SessionView|
            s.submissive_id == submissive_id && s.ended_at is None && s.clock_paused_at is Some,
        paused(submissive_id),
    );
}

/// Resuming sets the clock going and moves a planned release later by the seconds that it stood
/// still, no more and no less; a session without one has none afterwards either. An adjustment
/// carries the seconds and the message of the pause, only where a release was planned.
pub proof fn law_resuming_makes_up_for_the_pause(
    db: LedgerView,
    submissive_id: Seq<char>,
    by: Seq<char>,
    adjustment_id: Seq<char>,
    now: i64,
    i: int,
)
    requires
        resumed(db, submissive_id, by, adjustment_id, now) is Ok,
        only(
            db.confinements,
            i,
            |s: SessionView|
                s.submissive_id == submissive_id && s.ended_at is None && s.clock_paused_at is Some,
        ),
        only(db.confinements, i, |s: SessionView| s.id == db.confinements[i].id),
    ensures
        ({
            let after = resumed(db, submissive_id, by, adjustment_id, now)->Ok_0;
            let s = db.confinements[i];
            let t = after.confinements[i];
            let log = after.adjustments.last();
            &&& after == (LedgerView {
                confinements: after.confinements,
                adjustments: after.adjustments,
                ..db
            })
            &&& after.confinements.len() == db.confinements.len()
            &&& t == (SessionView {
                target_release_at: t.target_release_at,
                clock_paused_at: None,
                clock_pause_message: None,
                ..s
            })
            &&& forall|j: int|
                0 <= j < db.confinements.len() && j != i ==> #[trigger] after.confinements[j]
                    == db.confinements[j]
            &&& s.target_release_at is None ==> t.target_release_at is None && after.adjustments
                == db.adjustments
            &&& s.target_release_at is Some ==> {
                &&& t.target_release_at is Some
                &&& t.target_release_at->0 - s.target_release_at->0 == now - s.clock_paused_at->0
                &&& after.adjustments == db.adjustments.push(log)
                &&& log.id == adjustment_id && log.session_id == s.id
                &&& log.delta_seconds == now - s.clock_paused_at->0
                &&& log.reason == "clock_pause"@ && log.caused_by_assignment_id is None
                &&& log.adjusted_by_user_id == Some(by) && log.adjusted_at == now
                &&& log.notes == s.clock_pause_message
                &&& log.keyholder_reviewed_at == Some(now)
            }
        }),
{
    let standing = |s: SessionView|
        s.submissive_id == submissive_id && s.ended_at is None && s.clock_paused_at is Some;
    let named = |s: SessionView| s.id == db.confinements[i].id;
    lemma_find_only(db.confinements, i, standing, paused(submissive_id));
    assert forall|j: int| 0 <= j < db.confinements.len() && j != i implies (
    #[trigger] db.confinements[j]).id != db.confinements[i].id by {
        assert(!named(db.confinements[j]));
    }
}

/// Only a paused clock resumes.
pub proof fn law_only_a_paused_clock_resumes(
    db: LedgerView,
    submissive_id: Seq<char>,
    by: Seq<char>,
    adjustment_id: Seq<char>,
    now: i64,
)
    requires
        forall|j: int|
            0 <= j < db.confinements.len() ==> !((#[trigger] db.confinements[j]).submissive_id
                == submissive_id && db.confinements[j].ended_at is None
                && db.confinements[j].clock_paused_at is Some),
    ensures
        resumed(db, submissive_id, by, adjustment_id, now) == Err::<LedgerView, NotPausedError>(
            NotPausedError::NotPaused,
        ),
{
    lemma_find_any(db.confinements, paused(submissive_id));
}

/// The status of a lock: the seconds that are left until the planned release, which is overdue once
/// it lies in the past; nothing is left to count where none is planned, and nobody is locked
/// without an open session.
pub proof fn law_status_tells_the_time_left(sessions: Seq<SessionView>, submissive_id: Seq<char>, now: i64, i: int)
    requires
        only(
            sessions,
            i,
            |s: SessionView| s.submissive_id == submissive_id && s.ended_at is None,
        ),
    ensures
        find_row(sessions, open_session(submissive_id)) == Some(sessions[i]),
        match status_of(find_row(sessions, open_session(submissive_id)), now) {
            Err(e) => sessions[i].target_release_at matches Some(t) && !(i64::MIN <= t - now
                <= i64::MAX),
            Ok(status) => {
                &&& status.locked
                &&& status.session == Some(sessions[i])
                &&& status.clock_paused == (sessions[i].clock_paused_at is Some)
                &&& sessions[i].target_release_at matches Some(t) ==> {
                    &&& status.time_remaining_seconds is Some
                    &&& status.time_remaining_seconds->0 == t - now
                    &&& status.overdue == (t < now)
                }
                &&& sessions[i].target_release_at is None ==> status.time_remaining_seconds is None
                    && !status.overdue
            },
        },
{
    lemma_find_only(
        sessions,
        i,
        |s: SessionView| s.submissive_id == submissive_id && s.ended_at is None,
        open_session(submissive_id),
    );
}

/// Nobody is locked without an open session.
pub proof fn law_no_session_no_lock(sessions: Seq<SessionView>, submissive_id: Seq<char>, now: i64)
    requires
        forall|j: int|
            0 <= j < sessions.len() ==> !((#[trigger] sessions[j]).submissive_id == submissive_id
                && sessions[j].ended_at is None),
    ensures
        find_row(sessions, open_session(submissive_id)) is None,
        status_of(find_row(sessions, open_session(submissive_id)), now) matches Ok(status)
            && !status.locked && status.session is None && status.time_remaining_seconds is None
            && !status.overdue && !status.clock_paused,
{
    lemma_find_any(sessions, open_session(submissive_id));
}

/// A review takes the extensions that wait for one, by their id, and touches nothing else.
pub proof fn law_reviews_are_for_waiting_extensions(
    adjustments: Seq<AdjustmentRowView>,
    id: Seq<char>,
    now: i64,
    i: int,
)
    requires
        0 <= i < adjustments.len(),
    ensures
        ({
            let a = adjustments[i];
            let after = updated(adjustments, reviewable(id), reviewed(now));
            let waits = a.id == id && a.keyholder_reviewed_at is None && a.reason
                == "punishment_time_extension"@;
            &&& after.len() == adjustments.len()
            &&& waits ==> after[i] == (AdjustmentRowView { keyholder_reviewed_at: Some(now), ..a })
            &&& !waits ==> after[i] == a
        }),
        any_row(adjustments, reviewable(id)) == any_row(
            adjustments,
            |a: AdjustmentRowView|
                a.id == id && a.keyholder_reviewed_at is None && a.reason
                    == "punishment_time_extension"@,
        ),
{
    lemma_any_same(
        adjustments,
        |a: AdjustmentRowView|
            a.id == id && a.keyholder_reviewed_at is None && a.reason
                == "punishment_time_extension"@,
        reviewable(id),
    );
}

/// A history holds the sessions of one submissive, all of them, the latest start first.
pub proof fn law_history_is_whole_and_newest_first(
    listed: Seq<SessionView>,
    sessions: Seq<SessionView>,
    submissive_id: Seq<char>,
)
    requires
        ordered_from(listed, sessions.filter(of_submissive(submissive_id)), newest_first()),
    ensures
        forall|s: SessionView| #[trigger]
            listed.contains(s) <==> sessions.contains(s) && s.submissive_id == submissive_id,
        forall|i: int, j: int|
            0 <= i < j < listed.len() ==> (#[trigger] listed[i]).started_at >= (
            #[trigger] listed[j]).started_at,
{
    lemma_listed(listed, sessions, of_submissive(submissive_id), newest_first());
}

/// A list of adjustments holds those of the sessions asked for, each with what it says and the title
/// of the assignment that caused it, the latest first.
pub proof fn law_adjustments_are_listed_whole(
    listed: Seq<AdjustmentView>,
    db: LedgerView,
    session_ids: Seq<Seq<char>>,
)
    requires
        adjustments_listed(listed, db, session_ids),
    ensures
        forall|i: int, j: int|
            0 <= i < j < listed.len() ==> (#[trigger] listed[i]).adjusted_at >= (
            #[trigger] listed[j]).adjusted_at,
        forall|k: int|
            0 <= k < db.adjustments.len() && session_ids.contains(
                (#[trigger] db.adjustments[k]).session_id,
            ) ==> exists|i: int|
                0 <= i < listed.len() && tells_of(#[trigger] listed[i], db.adjustments[k]),
        forall|i: int|
            0 <= i < listed.len() ==> tells_of_one(
                #[trigger] listed[i],
                db.adjustments,
                session_ids,
            ),
{
    let found = choose|found: Seq<AdjustmentRowView>|
        #[trigger] ordered_from(
            found,
            db.adjustments.filter(of_sessions(session_ids)),
            latest_adjustment_first(),
        ) && listed == found.map_values(shown(db.assignments));
    lemma_listed(
        found,
        db.adjustments,
        of_sessions(session_ids),
        latest_adjustment_first(),
    );
    assert forall|i: int, j: int| 0 <= i < j < listed.len() implies (
    #[trigger] listed[i]).adjusted_at >= (#[trigger] listed[j]).adjusted_at by {
        assert(latest_adjustment_first()(found[i], found[j]));
    }
    assert forall|k: int|
        0 <= k < db.adjustments.len() && session_ids.contains(
            (#[trigger] db.adjustments[k]).session_id,
        ) implies exists|i: int|
        0 <= i < listed.len() && tells_of(#[trigger] listed[i], db.adjustments[k]) by {
        assert(found.contains(db.adjustments[k]));
        let i = choose|i: int| 0 <= i < found.len() && found[i] == db.adjustments[k];
        assert(tells_of(listed[i], db.adjustments[k]));
    }
    assert forall|i: int| 0 <= i < listed.len() implies tells_of_one(
        #[trigger] listed[i],
        db.adjustments,
        session_ids,
    ) by {
        assert(found.contains(found[i]));
        let k = choose|k: int| 0 <= k < db.adjustments.len() && db.adjustments[k] == found[i];
        assert(tells_of(listed[i], db.adjustments[k]));
    }
}

/// A line of a listing tells of an adjustment of one of these sessions.
pub open spec fn tells_of_one(
    shown: AdjustmentView,
    adjustments: Seq<AdjustmentRowView>,
    session_ids: Seq<Seq<char>>,
) -> bool {
    exists|k: int|
        0 <= k < adjustments.len() && session_ids.contains(adjustments[k].session_id) && tells_of(
            shown,
            #[trigger] adjustments[k],
        )
}

/// A line of a listing tells what an adjustment holds.
pub open spec fn tells_of(shown: AdjustmentView, a: AdjustmentRowView) -> bool {
    &&& shown.id == a.id
    &&& shown.delta_seconds == a.delta_seconds
    &&& shown.reason == a.reason
    &&& shown.adjusted_by_user_id == a.adjusted_by_user_id
    &&& shown.adjusted_at == a.adjusted_at
    &&& shown.notes == a.notes
    &&& shown.keyholder_reviewed_at == a.keyholder_reviewed_at
}

/// What some sessions call for is what each of them calls for.
proof fn lemma_reminders_of_each(
    db: LedgerView,
    sessions: Seq<SessionView>,
    since: i64,
    n: nat,
    x: StillPausedReminderView,
)
    requires
        n <= sessions.len(),
    ensures
        paused_reminders(db, sessions, since, n).contains(x) <==> exists|i: int|
            0 <= i < n && paused_reminder(db, #[trigger] sessions[i], since).contains(x),
    decreases n,
{
    if n > 0 {
        lemma_reminders_of_each(db, sessions, since, (n - 1) as nat, x);
        let a = paused_reminders(db, sessions, since, (n - 1) as nat);
        let b = paused_reminder(db, sessions[n - 1], since);
        if a.contains(x) {
            let m = choose|m: int| 0 <= m < a.len() && a[m] == x;
            assert((a + b)[m] == x);
        }
        if b.contains(x) {
            let m = choose|m: int| 0 <= m < b.len() && b[m] == x;
            assert((a + b)[a.len() + m] == x);
        }
        if (a + b).contains(x) {
            let m = choose|m: int| 0 <= m < (a + b).len() && (a + b)[m] == x;
            if m < a.len() {
                assert(a[m] == x);
            } else {
                assert(b[m - a.len()] == x);
            }
        }
        if exists|i: int|
            0 <= i < n && paused_reminder(db, #[trigger] sessions[i], since).contains(x) {
            let i = choose|i: int|
                0 <= i < n && paused_reminder(db, #[trigger] sessions[i], since).contains(x);
            if i < n - 1 {
                assert(a.contains(x));
            }
        }
    }
}

/// A Keyholder is reminded of an open session whose clock has stood still for a day or more, where
/// nobody was reminded of it within the last day; and of no other.
pub proof fn law_a_days_pause_is_reminded_of(
    db: &Ledger,
    now: i64,
    r: Result<Vec<StillPausedReminder>, DbError>,
    k: int,
    n: int,
)
    requires
        run_still_paused_sweep_tick.ensures((db, now), r),
        only(db@.confinements, k, |s: SessionView| s.id == db@.confinements[k].id),
        only(
            db@.links,
            n,
            |l: links::LinkView|
                l.submissive_id == db@.confinements[k].submissive_id && (l.status == "active"@
                    || l.status == "paused"@),
        ),
    ensures
        match r {
            Err(_) => now - 86400 < i64::MIN,
            Ok(reminders) => {
                let s = db@.confinements[k];
                rows(reminders@).contains(
                    StillPausedReminderView {
                        session_id: s.id,
                        keyholder_id: db@.links[n].keyholder_id,
                    },
                ) <==> s.ended_at is None && s.clock_paused_at is Some && s.clock_paused_at->0
                    + 86400 <= now && !any_row(
                    db@.notifications,
                    |m: notifications::NotificationView|
                        m.notification_type == "confinement.clock_still_paused"@
                            && m.related_entity_id == Some(s.id) && m.created_at >= now - 86400,
                )
            },
        },
{
    if r is Ok {
        let s = db@.confinements[k];
        let since = (now - 86400) as i64;
        let p = long_paused(since);
        let found = db@.confinements.filter(p);
        let x = StillPausedReminderView {
            session_id: s.id,
            keyholder_id: db@.links[n].keyholder_id,
        };
        lemma_reminders_of_each(db@, found, since, found.len(), x);
        let runs = |l: links::LinkView|
            l.submissive_id == s.submissive_id && (l.status == "active"@ || l.status
                == "paused"@);
        lemma_find_only(db@.links, n, runs, running_link(s.submissive_id));
        lemma_any_same(
            db@.notifications,
            |m: notifications::NotificationView|
                m.notification_type == "confinement.clock_still_paused"@ && m.related_entity_id
                    == Some(s.id) && m.created_at >= now - 86400,
            notifications::about_since("confinement.clock_still_paused"@, s.id, since),
        );
        lemma_filter_contains(db@.confinements, p, s);
        let told = paused_reminder(db@, s, since);
        if told.len() > 0 {
            assert(told[0] == x);
        }
        if found.contains(s) && told.contains(x) {
            let i = choose|i: int| 0 <= i < found.len() && found[i] == s;
            assert(paused_reminder(db@, found[i], since).contains(x));
        }
        if exists|i: int|
            0 <= i < found.len() && paused_reminder(db@, #[trigger] found[i], since).contains(x) {
            let i = choose|i: int|
                0 <= i < found.len() && paused_reminder(db@, #[trigger] found[i], since).contains(
                    x,
                );
            assert(found.contains(found[i]));
            lemma_filter_contains(db@.confinements, p, found[i]);
            let j = choose|j: int|
                0 <= j < db@.confinements.len() && db@.confinements[j] == found[i];
            let named = |s: SessionView| s.id == db@.confinements[k].id;
            assert(named(db@.confinements[j]));
            assert(j == k);
        }
    }
}

/// What waits among some adjustments is what waits of each.
proof fn lemma_waiting_of_each(
    db: LedgerView,
    link_ids: Seq<Seq<char>>,
    n: nat,
    x: UnreviewedAdjustmentView,
)
    requires
        n <= db.adjustments.len(),
    ensures
        all_waiting(db, link_ids, n).contains(x) <==> exists|i: int|
            0 <= i < n && waiting(db, #[trigger] db.adjustments[i], link_ids).contains(x),
    decreases n,
{
    if n > 0 {
        lemma_waiting_of_each(db, link_ids, (n - 1) as nat, x);
        let a = all_waiting(db, link_ids, (n - 1) as nat);
        let b = waiting(db, db.adjustments[n - 1], link_ids);
        if a.contains(x) {
            let m = choose|m: int| 0 <= m < a.len() && a[m] == x;
            assert((a + b)[m] == x);
        }
        if b.contains(x) {
            let m = choose|m: int| 0 <= m < b.len() && b[m] == x;
            assert((a + b)[a.len() + m] == x);
        }
        if (a + b).contains(x) {
            let m = choose|m: int| 0 <= m < (a + b).len() && (a + b)[m] == x;
            if m < a.len() {
                assert(a[m] == x);
            } else {
                assert(b[m - a.len()] == x);
            }
        }
        if exists|i: int|
            0 <= i < n && waiting(db, #[trigger] db.adjustments[i], link_ids).contains(x) {
            let i = choose|i: int|
                0 <= i < n && waiting(db, #[trigger] db.adjustments[i], link_ids).contains(x);
            if i < n - 1 {
                assert(a.contains(x));
            }
        }
    }
}

/// An adjustment that waits for a Keyholder: an extension handed out as a punishment that nobody has
/// looked at, of a session of somebody on one of the links.
pub open spec fn waits_for_keyholder(
    db: LedgerView,
    a: AdjustmentRowView,
    link_ids: Seq<Seq<char>>,
    x: UnreviewedAdjustmentView,
) -> bool {
    &&& a.reason == "punishment_time_extension"@ && a.keyholder_reviewed_at is None
    &&& any_row(
        db.confinements,
        |s: SessionView| s.id == a.session_id && s.submissive_id == x.submissive_id,
    )
    &&& any_row(
        db.links,
        |l: links::LinkView| l.submissive_id == x.submissive_id && link_ids.contains(l.id),
    )
    &&& x.delta_seconds == a.delta_seconds && x.adjusted_at == a.adjusted_at
}

/// What is listed as waiting for a Keyholder waits, the latest first.
pub proof fn law_what_is_listed_waits(
    listed: Seq<UnreviewedAdjustmentView>,
    db: LedgerView,
    link_ids: Seq<Seq<char>>,
    x: UnreviewedAdjustmentView,
)
    requires
        ordered_from(
            listed,
            all_waiting(db, link_ids, db.adjustments.len()),
            latest_waiting_first(),
        ),
    ensures
        listed.contains(x) ==> exists|i: int|
            0 <= i < db.adjustments.len() && waits_for_keyholder(
                db,
                #[trigger] db.adjustments[i],
                link_ids,
                x,
            ),
        forall|i: int, j: int|
            0 <= i < j < listed.len() ==> (#[trigger] listed[i]).adjusted_at >= (
            #[trigger] listed[j]).adjusted_at,
{
    broadcast use vstd::seq_lib::group_to_multiset_ensures;

    let all = all_waiting(db, link_ids, db.adjustments.len());
    assert(listed.contains(x) <==> listed.to_multiset().count(x) > 0);
    assert(all.contains(x) <==> all.to_multiset().count(x) > 0);
    lemma_waiting_of_each(db, link_ids, db.adjustments.len(), x);
    if listed.contains(x) {
        let i = choose|i: int|
            0 <= i < db.adjustments.len() && waiting(
                db,
                #[trigger] db.adjustments[i],
                link_ids,
            ).contains(x);
        let a = db.adjustments[i];
        lemma_find_any(db.confinements, by_id(a.session_id));
        let s = find_row(db.confinements, by_id(a.session_id))->0;
        let held = |s: SessionView| s.id == a.session_id && s.submissive_id == x.submissive_id;
        let k = choose|k: int| 0 <= k < db.confinements.len() && db.confinements[k] == s;
        assert(held(db.confinements[k]));
        let among = link_among(s.submissive_id, link_ids);
        let f = db.links.filter(among);
        assert(f.contains(f[0]));
        lemma_filter_contains(db.links, among, f[0]);
        let m = choose|m: int| 0 <= m < db.links.len() && db.links[m] == f[0];
        let linked = |l: links::LinkView|
            l.submissive_id == x.submissive_id && link_ids.contains(l.id);
        assert(linked(db.links[m]));
        assert(waits_for_keyholder(db, db.adjustments[i], link_ids, x));
    }
}

/// What waits for a Keyholder is listed, with the title of the assignment that caused it.
pub proof fn law_what_waits_is_listed(
    listed: Seq<UnreviewedAdjustmentView>,
    db: LedgerView,
    link_ids: Seq<Seq<char>>,
    i: int,
    k: int,
    n: int,
    c: int,
)
    requires
        ordered_from(
            listed,
            all_waiting(db, link_ids, db.adjustments.len()),
            latest_waiting_first(),
        ),
        0 <= i < db.adjustments.len(),
        db.adjustments[i].reason == "punishment_time_extension"@,
        db.adjustments[i].keyholder_reviewed_at is None,
        only(db.confinements, k, |s: SessionView| s.id == db.adjustments[i].session_id),
        0 <= n < db.links.len(),
        db.links[n].submissive_id == db.confinements[k].submissive_id,
        link_ids.contains(db.links[n].id),
        db.adjustments[i].caused_by_assignment_id is Some,
        only(
            db.assignments,
            c,
            |a: assignments::AssignmentView|
                a.id == db.adjustments[i].caused_by_assignment_id->0,
        ),
    ensures
        listed.contains(
            UnreviewedAdjustmentView {
                submissive_id: db.confinements[k].submissive_id,
                delta_seconds: db.adjustments[i].delta_seconds,
                adjusted_at: db.adjustments[i].adjusted_at,
                caused_by_title: Some(db.assignments[c].title),
            },
        ),
{
    broadcast use vstd::seq_lib::group_to_multiset_ensures;

    let a = db.adjustments[i];
    let s = db.confinements[k];
    let cause = a.caused_by_assignment_id->0;
    let x = UnreviewedAdjustmentView {
        submissive_id: s.submissive_id,
        delta_seconds: a.delta_seconds,
        adjusted_at: a.adjusted_at,
        caused_by_title: Some(db.assignments[c].title),
    };
    lemma_find_only(
        db.confinements,
        k,
        |s: SessionView| s.id == a.session_id,
        by_id(a.session_id),
    );
    lemma_find_only(
        db.assignments,
        c,
        |a: assignments::AssignmentView| a.id == cause,
        assignments::by_id(cause),
    );
    let among = link_among(s.submissive_id, link_ids);
    lemma_filter_contains(db.links, among, db.links[n]);
    let one = waiting(db, a, link_ids);
    assert(one.len() > 0);
    assert(one[0] == x);
    assert(waiting(db, db.adjustments[i], link_ids).contains(x));
    lemma_waiting_of_each(db, link_ids, db.adjustments.len(), x);
    let all = all_waiting(db, link_ids, db.adjustments.len());
    assert(all.contains(x) <==> all.to_multiset().count(x) > 0);
    assert(listed.contains(x) <==> listed.to_multiset().count(x) > 0);
}

/// The sessions of a submissive are all that they ever had, and no others.
pub proof fn law_a_submissives_sessions_are_their_own(
    db: LedgerView,
    submissive_id: Seq<char>,
    id: Seq<char>,
)
    ensures
        session_ids_of(db, submissive_id).contains(id) <==> exists|k: int|
            0 <= k < db.confinements.len() && (#[trigger] db.confinements[k]).submissive_id
                == submissive_id && db.confinements[k].id == id,
{
    let p = of_submissive(submissive_id);
    let f = db.confinements.filter(p);
    let ids = session_ids_of(db, submissive_id);
    if ids.contains(id) {
        let i = choose|i: int| 0 <= i < ids.len() && ids[i] == id;
        assert(f.contains(f[i]));
        lemma_filter_contains(db.confinements, p, f[i]);
        let k = choose|k: int| 0 <= k < db.confinements.len() && db.confinements[k] == f[i];
        assert(db.confinements[k].submissive_id == submissive_id);
    }
    if exists|k: int|
        0 <= k < db.confinements.len() && (#[trigger] db.confinements[k]).submissive_id
            == submissive_id && db.confinements[k].id == id {
        let k = choose|k: int|
            0 <= k < db.confinements.len() && (#[trigger] db.confinements[k]).submissive_id
                == submissive_id && db.confinements[k].id == id;
        lemma_filter_contains(db.confinements, p, db.confinements[k]);
        let i = choose|i: int| 0 <= i < f.len() && f[i] == db.confinements[k];
        assert(ids[i] == id);
    }
}

} // verus!
