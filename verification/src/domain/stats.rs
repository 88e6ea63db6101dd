//! Reports, computed on read from what the ledger holds.

use vstd::prelude::*;

use crate::arith::{minus, narrow, stored, sum_of};
use crate::domain::chastity::confinement;
use crate::domain::{links, proofs};
use crate::domain::rewards_punishments::assignments;
use crate::domain::verification::codes;
use crate::error::DbError;
use crate::ledger::{Ledger, LedgerView};
use crate::table::{
    any, any_row, count, find_row, lemma_filter_contains, lemma_filter_meets, lemma_filter_push,
    lemma_find_only, only, rows, select, Row,
};
use crate::text::{opt_is, own, same};

verus! {

/// How long the sessions were that ended within a period; all zero where none did.
#[derive(Clone, Copy, Debug, PartialEq, Eq, Structural)]
pub struct SessionLengths {
    pub shortest_seconds: i64,
    pub longest_seconds: i64,
    pub average_seconds: i64,
}

/// How verification went.
#[derive(Clone, Copy, Debug, PartialEq, Eq, Structural)]
pub struct VerificationCounts {
    pub verified: i64,
    pub failed: i64,
    pub missed: i64,
}

/// How tasks went.
#[derive(Clone, Copy, Debug, PartialEq, Eq, Structural)]
pub struct TaskCounts {
    pub assigned: i64,
    pub completed: i64,
    pub failed: i64,
    pub escalated: i64,
}

/// How far planned releases were moved either way.
#[derive(Clone, Copy, Debug, PartialEq, Eq, Structural)]
pub struct TimerAdjustments {
    pub added_seconds: i64,
    pub removed_seconds: i64,
}

/// What a report says of one submissive on one link.
#[derive(Debug, PartialEq, Eq)]
pub struct Stats {
    pub period: String,
    pub current_streak_seconds: i64,
    pub personal_best_streak_seconds: i64,
    /// How much of the period was spent locked, in percent.
    pub consistency_pct: i64,
    pub session_lengths: SessionLengths,
    pub verification: VerificationCounts,
    pub tasks: TaskCounts,
    pub rewards_given: i64,
    pub punishments_given: i64,
    pub timer_adjustments: TimerAdjustments,
    pub lifetime_locked_seconds: i64,
}

/// What a `Stats` holds.
#[verifier::ext_equal]
pub struct StatsView {
    pub period: Seq<char>,
    pub current_streak_seconds: i64,
    pub personal_best_streak_seconds: i64,
    pub consistency_pct: i64,
    pub session_lengths: SessionLengths,
    pub verification: VerificationCounts,
    pub tasks: TaskCounts,
    pub rewards_given: i64,
    pub punishments_given: i64,
    pub timer_adjustments: TimerAdjustments,
    pub lifetime_locked_seconds: i64,
}

impl View for Stats {
    type V = StatsView;

    open spec fn view(&self) -> StatsView {
        StatsView {
            period: self.period@,
            current_streak_seconds: self.current_streak_seconds,
            personal_best_streak_seconds: self.personal_best_streak_seconds,
            consistency_pct: self.consistency_pct,
            session_lengths: self.session_lengths,
            verification: self.verification,
            tasks: self.tasks,
            rewards_given: self.rewards_given,
            punishments_given: self.punishments_given,
            timer_adjustments: self.timer_adjustments,
            lifetime_locked_seconds: self.lifetime_locked_seconds,
        }
    }
}

/// A period that can be reported on.
pub open spec fn is_period(period: Seq<char>) -> bool {
    period == "all"@ || period == "30d"@ || period == "90d"@ || period == "365d"@
}

/// Whether a period can be reported on.
pub fn valid_period(period: &str) -> (r: bool)
    ensures
        r == is_period(period@),
{
    same(period, "all") || same(period, "30d") || same(period, "90d") || same(period, "365d")
}

/// How many seconds a period goes back; `None` where it goes back to the start.
pub open spec fn window(period: Seq<char>) -> Option<i64> {
    if period == "30d"@ {
        Some(2_592_000)
    } else if period == "90d"@ {
        Some(7_776_000)
    } else if period == "365d"@ {
        Some(31_536_000)
    } else {
        None
    }
}

/// How many seconds a period goes back.
pub fn window_seconds(period: &str) -> (r: Option<i64>)
    ensures
        r == window(period@),
{
    if same(period, "30d") {
        Some(2_592_000)
    } else if same(period, "90d") {
        Some(7_776_000)
    } else if same(period, "365d") {
        Some(31_536_000)
    } else {
        None
    }
}

/// The sum of a number over rows, added up one by one, as long as it can be stored.
pub open spec fn added_up<V>(s: Seq<V>, f: spec_fn(V) -> int) -> Result<i64, DbError>
    decreases s.len(),
{
    if s.len() == 0 {
        Ok(0)
    } else {
        match added_up(s.drop_last(), f) {
            Err(e) => Err(e),
            Ok(total) => stored(total + f(s.last())),
        }
    }
}

/// The largest of a number over rows and `least`.
pub open spec fn largest<V>(s: Seq<V>, f: spec_fn(V) -> int, least: int) -> int
    decreases s.len(),
{
    if s.len() == 0 {
        least
    } else {
        let so_far = largest(s.drop_last(), f, least);
        if f(s.last()) > so_far {
            f(s.last())
        } else {
            so_far
        }
    }
}

/// The closure `g` computes `f` of a row, within a range that can be added.
pub open spec fn measures<T: Row, G: Fn(&T) -> i128>(g: G, f: spec_fn(T::V) -> int) -> bool {
    &&& forall|r: &T| #[trigger] g.requires((r,))
    &&& forall|r: &T, n: i128| #[trigger]
        g.ensures((r,), n) ==> n == f(r@) && -0x1_0000_0000_0000_0000 <= n
            <= 0x1_0000_0000_0000_0000
}

/// Adds a number up over rows.
fn add_up<T: Row, G: Fn(&T) -> i128>(
    v: &Vec<T>,
    Ghost(f): Ghost<spec_fn(T::V) -> int>,
    g: G,
) -> (r: Result<i64, DbError>)
    requires
        measures(g, f),
    ensures
        r == added_up(rows(v@), f),
{
    let mut total: Result<i64, DbError> = Ok(0);
    let mut i: usize = 0;
    assert(rows(v@).take(0) =~= Seq::empty());
    while i < v.len()
        invariant
            i <= v@.len(),
            measures(g, f),
            total == added_up(rows(v@).take(i as int), f),
        decreases v@.len() - i,
    {
        assert(rows(v@).take(i + 1).drop_last() =~= rows(v@).take(i as int));
        assert(rows(v@).take(i + 1).last() == v@[i as int]@);
        total = match total {
            Err(e) => Err(e),
            Ok(t) => narrow(t as i128 + g(&v[i])),
        };
        i = i + 1;
    }
    assert(rows(v@).take(i as int) =~= rows(v@));
    total
}

/// The largest of a number over rows and `least`.
fn find_largest<T: Row, G: Fn(&T) -> i128>(
    v: &Vec<T>,
    Ghost(f): Ghost<spec_fn(T::V) -> int>,
    g: G,
    least: i128,
) -> (r: i128)
    requires
        measures(g, f),
        -0x1_0000_0000_0000_0000 <= least <= 0x1_0000_0000_0000_0000,
    ensures
        r == largest(rows(v@), f, least as int),
        -0x1_0000_0000_0000_0000 <= r <= 0x1_0000_0000_0000_0000,
{
    let mut so_far: i128 = least;
    let mut i: usize = 0;
    assert(rows(v@).take(0) =~= Seq::empty());
    while i < v.len()
        invariant
            i <= v@.len(),
            measures(g, f),
            so_far == largest(rows(v@).take(i as int), f, least as int),
            -0x1_0000_0000_0000_0000 <= so_far <= 0x1_0000_0000_0000_0000,
        decreases v@.len() - i,
    {
        assert(rows(v@).take(i + 1).drop_last() =~= rows(v@).take(i as int));
        assert(rows(v@).take(i + 1).last() == v@[i as int]@);
        let n: i128 = g(&v[i]);
        if n > so_far {
            so_far = n;
        }
        i = i + 1;
    }
    assert(rows(v@).take(i as int) =~= rows(v@));
    so_far
}

/// A session of this submissive.
pub open spec fn of_submissive(submissive_id: Seq<char>) -> spec_fn(confinement::SessionView) -> bool {
    |s: confinement::SessionView| s.submissive_id == submissive_id
}

/// When a session ends; an open one goes on until now.
pub open spec fn end_of(s: confinement::SessionView, now: i64) -> i64 {
    match s.ended_at {
        Some(t) => t,
        None => now,
    }
}

/// How long a session is.
pub open spec fn length(now: i64) -> spec_fn(confinement::SessionView) -> int {
    |s: confinement::SessionView| end_of(s, now) - s.started_at
}

/// How short a session is: its length, turned round.
pub open spec fn shortness(now: i64) -> spec_fn(confinement::SessionView) -> int {
    |s: confinement::SessionView| -(end_of(s, now) - s.started_at)
}

/// How much of a session lies between two times.
pub open spec fn overlap(since: i64, now: i64) -> spec_fn(confinement::SessionView) -> int {
    |s: confinement::SessionView|
        {
            let from = if s.started_at > since {
                s.started_at
            } else {
                since
            };
            let to = if end_of(s, now) < now {
                end_of(s, now)
            } else {
                now
            };
            if to > from {
                to - from
            } else {
                0
            }
        }
}

/// The session ended between two times.
pub open spec fn ended_within(since: i64, now: i64) -> spec_fn(confinement::SessionView) -> bool {
    |s: confinement::SessionView| s.ended_at matches Some(t) && since <= t <= now
}

/// The session is open.
pub open spec fn is_open() -> spec_fn(confinement::SessionView) -> bool {
    |s: confinement::SessionView| s.ended_at is None
}

/// A quotient, rounded toward zero.
pub open spec fn toward_zero(a: int, b: int) -> int {
    if a >= 0 {
        a / b
    } else {
        -((-a) / b)
    }
}

/// How long some sessions were.
pub open spec fn lengths_of(s: Seq<confinement::SessionView>, now: i64) -> Result<
    SessionLengths,
    DbError,
> {
    if s.len() == 0 {
        Ok(SessionLengths { shortest_seconds: 0, longest_seconds: 0, average_seconds: 0 })
    } else {
        match (
            stored(-largest(s, shortness(now), shortness(now)(s[0]))),
            stored(largest(s, length(now), length(now)(s[0]))),
            added_up(s, length(now)),
        ) {
            (Ok(shortest_seconds), Ok(longest_seconds), Ok(total)) => Ok(
                SessionLengths {
                    shortest_seconds,
                    longest_seconds,
                    average_seconds: toward_zero(total as int, s.len() as int) as i64,
                },
            ),
            _ => Err(DbError::OutOfRange),
        }
    }
}

/// How long a session is.
fn length_of(s: &confinement::Session, now: i64) -> (r: i128)
    ensures
        r == length(now)(s@),
        -0x1_0000_0000_0000_0000 <= r <= 0x1_0000_0000_0000_0000,
{
    let end: i64 = match s.ended_at {
        Some(t) => t,
        None => now,
    };
    end as i128 - s.started_at as i128
}

/// How much of a session lies between two times.
fn overlap_of(s: &confinement::Session, since: i64, now: i64) -> (r: i128)
    ensures
        r == overlap(since, now)(s@),
        -0x1_0000_0000_0000_0000 <= r <= 0x1_0000_0000_0000_0000,
{
    let end: i64 = match s.ended_at {
        Some(t) => t,
        None => now,
    };
    let from: i64 = if s.started_at > since {
        s.started_at
    } else {
        since
    };
    let to: i64 = if end < now {
        end
    } else {
        now
    };
    if to > from {
        to as i128 - from as i128
    } else {
        0
    }
}

/// How long some sessions were.
fn measure_lengths(v: &Vec<confinement::Session>, now: i64) -> (r: Result<SessionLengths, DbError>)
    ensures
        r == lengths_of(rows(v@), now),
{
    if v.len() == 0 {
        return Ok(SessionLengths { shortest_seconds: 0, longest_seconds: 0, average_seconds: 0 });
    }
    let ghost f = length(now);
    let ghost h = shortness(now);
    let g = |s: &confinement::Session| -> (n: i128)
        ensures
            n == f(s@),
            -0x1_0000_0000_0000_0000 <= n <= 0x1_0000_0000_0000_0000,
        { length_of(s, now) };
    let k = |s: &confinement::Session| -> (n: i128)
        ensures
            n == h(s@),
            -0x1_0000_0000_0000_0000 <= n <= 0x1_0000_0000_0000_0000,
        { -length_of(s, now) };
    assert(rows(v@)[0] == v@[0]@);
    let first: i128 = length_of(&v[0], now);
    let shortest: i128 = -find_largest(v, Ghost(h), k, -first);
    let longest: i128 = find_largest(v, Ghost(f), g, first);
    match (narrow(shortest), narrow(longest), add_up(v, Ghost(f), g)) {
        (Ok(shortest_seconds), Ok(longest_seconds), Ok(total)) => {
            let n: i128 = v.len() as i128;
            let average: i128 = if total >= 0 {
                total as i128 / n
            } else {
                -(-(total as i128) / n)
            };
            assert(-0x8000_0000_0000_0000 <= average <= 0x7fff_ffff_ffff_ffff) by (nonlinear_arith)
                requires
                    n >= 1,
                    -0x8000_0000_0000_0000 <= total <= 0x7fff_ffff_ffff_ffff,
                    total >= 0 ==> average == (total as int) / (n as int),
                    total < 0 ==> average == -((-(total as int)) / (n as int)),
            ;
            Ok(
                SessionLengths {
                    shortest_seconds,
                    longest_seconds,
                    average_seconds: average as i64,
                },
            )
        },
        _ => Err(DbError::OutOfRange),
    }
}

/// When a period starts: so long ago, or else when the link did.
pub open spec fn start_of(db: LedgerView, link_id: Seq<char>, period: Seq<char>, now: i64) -> Result<
    i64,
    DbError,
> {
    match find_row(db.links, links::by_id(link_id)) {
        None => Err(DbError::NoRows),
        Some(l) => match window(period) {
            Some(seconds) => stored(now - seconds),
            None => Ok(l.started_at),
        },
    }
}

/// When a period starts.
fn find_start(db: &Ledger, link_id: &str, period: &str, now: i64) -> (r: Result<i64, DbError>)
    ensures
        r == start_of(db@, link_id@, period@, now),
{
    match links::get(db, link_id) {
        None => Err(DbError::NoRows),
        Some(l) => match window_seconds(period) {
            Some(seconds) => minus(now, seconds),
            None => Ok(l.started_at),
        },
    }
}

/// A submissive's sessions.
pub open spec fn sessions_of(db: LedgerView, submissive_id: Seq<char>) -> Seq<
    confinement::SessionView,
> {
    db.confinements.filter(of_submissive(submissive_id))
}

/// A submissive's sessions.
fn list_sessions(db: &Ledger, submissive_id: &str) -> (r: Vec<confinement::Session>)
    ensures
        rows(r@) == sessions_of(db@, submissive_id@),
{
    let ghost p = of_submissive(submissive_id@);
    let test = |s: &confinement::Session| -> (b: bool)
        ensures
            b == p(s@),
        { same(s.submissive_id.as_str(), submissive_id) };
    select(&db.confinements, Ghost(p), test)
}

/// How many seconds of a period were spent locked, and how many it has, at least one.
pub open spec fn share(
    db: LedgerView,
    link_id: Seq<char>,
    submissive_id: Seq<char>,
    period: Seq<char>,
    now: i64,
) -> Result<(i64, i64), DbError> {
    match start_of(db, link_id, period, now) {
        Err(e) => Err(e),
        Ok(since) => match (
            added_up(sessions_of(db, submissive_id), overlap(since, now)),
            stored(now - since),
        ) {
            (Ok(locked), Ok(whole)) => Ok(
                (
                    locked,
                    if whole < 1 {
                        1
                    } else {
                        whole
                    },
                ),
            ),
            _ => Err(DbError::OutOfRange),
        },
    }
}

/// How many seconds of a period were spent locked, and how many it has, at least one.
pub fn locked_share(db: &Ledger, link_id: &str, submissive_id: &str, period: &str, now: i64) -> (r:
    Result<(i64, i64), DbError>)
    ensures
        r == share(db@, link_id@, submissive_id@, period@, now),
{
    let since = match find_start(db, link_id, period, now) {
        Ok(t) => t,
        Err(e) => {
            return Err(e);
        },
    };
    let sessions = list_sessions(db, submissive_id);
    let ghost f = overlap(since, now);
    let g = |s: &confinement::Session| -> (n: i128)
        ensures
            n == f(s@),
            -0x1_0000_0000_0000_0000 <= n <= 0x1_0000_0000_0000_0000,
        { overlap_of(s, since, now) };
    match (add_up(&sessions, Ghost(f), g), minus(now, since)) {
        (Ok(locked), Ok(whole)) => Ok(
            (
                locked,
                if whole < 1 {
                    1
                } else {
                    whole
                },
            ),
        ),
        _ => Err(DbError::OutOfRange),
    }
}

/// How long the current session has gone on: the last that is open, or zero.
pub open spec fn streak(s: Seq<confinement::SessionView>, now: i64) -> int {
    let open = s.filter(is_open());
    if open.len() == 0 {
        0
    } else {
        now - open.last().started_at
    }
}

/// How long the current session has gone on.
fn measure_streak(v: &Vec<confinement::Session>, now: i64) -> (r: i128)
    ensures
        r == streak(rows(v@), now),
{
    let ghost p = is_open();
    let test = |s: &confinement::Session| -> (b: bool)
        ensures
            b == p(s@),
        { s.ended_at.is_none() };
    let open = select(v, Ghost(p), test);
    if open.len() == 0 {
        0
    } else {
        now as i128 - open[open.len() - 1].started_at as i128
    }
}

/// A verification proof of this link with this status, submitted in the period.
pub open spec fn verification(link_id: Seq<char>, status: Seq<char>, since: i64) -> spec_fn(
    proofs::SubmissionView,
) -> bool {
    |s: proofs::SubmissionView|
        s.link_id == link_id && s.purpose == "verification"@ && s.status == status && s.submitted_at
            >= since
}

/// A code of this link, issued in the period, that expired unused.
pub open spec fn missed_code(link_id: Seq<char>, since: i64, now: i64) -> spec_fn(codes::CodeView) -> bool {
    |c: codes::CodeView|
        c.link_id == link_id && c.consumed_at is None && c.expires_at < now && c.issued_at >= since
}

/// How verification went.
pub open spec fn verification_counts(
    db: LedgerView,
    link_id: Seq<char>,
    since: i64,
    now: i64,
) -> Result<VerificationCounts, DbError> {
    match (
        stored(db.submissions.filter(verification(link_id, "verified"@, since)).len() as int),
        stored(db.submissions.filter(verification(link_id, "failed"@, since)).len() as int),
        stored(db.codes.filter(missed_code(link_id, since, now)).len() as int),
    ) {
        (Ok(verified), Ok(failed), Ok(missed)) => Ok(
            VerificationCounts { verified, failed, missed },
        ),
        _ => Err(DbError::OutOfRange),
    }
}

/// A count, where it can be stored.
fn counted(n: usize) -> (r: Result<i64, DbError>)
    ensures
        r == stored(n as int),
{
    narrow(n as i128)
}

/// Counts verification proofs.
fn count_verification(db: &Ledger, link_id: &str, status: &str, since: i64) -> (r: usize)
    ensures
        r == db@.submissions.filter(verification(link_id@, status@, since)).len(),
{
    let ghost p = verification(link_id@, status@, since);
    let test = |s: &proofs::Submission| -> (b: bool)
        ensures
            b == p(s@),
        {
            same(s.link_id.as_str(), link_id) && same(s.purpose.as_str(), "verification") && same(
                s.status.as_str(),
                status,
            ) && s.submitted_at >= since
        };
    count(&db.submissions, Ghost(p), test)
}

/// How verification went.
fn count_verifications(db: &Ledger, link_id: &str, since: i64, now: i64) -> (r: Result<
    VerificationCounts,
    DbError,
>)
    ensures
        r == verification_counts(db@, link_id@, since, now),
{
    let ghost p = missed_code(link_id@, since, now);
    let test = |c: &codes::Code| -> (b: bool)
        ensures
            b == p(c@),
        {
            same(c.link_id.as_str(), link_id) && c.consumed_at.is_none() && c.expires_at < now
                && c.issued_at >= since
        };
    match (
        counted(count_verification(db, link_id, "verified", since)),
        counted(count_verification(db, link_id, "failed", since)),
        counted(count(&db.codes, Ghost(p), test)),
    ) {
        (Ok(verified), Ok(failed), Ok(missed)) => Ok(
            VerificationCounts { verified, failed, missed },
        ),
        _ => Err(DbError::OutOfRange),
    }
}

/// An assignment of this kind on this link, made in the period.
pub open spec fn given(link_id: Seq<char>, kind: Seq<char>, since: i64) -> spec_fn(
    assignments::AssignmentView,
) -> bool {
    |a: assignments::AssignmentView|
        a.link_id == link_id && a.kind == kind && a.assigned_at >= since
}

/// One of them with this status.
pub open spec fn given_as(link_id: Seq<char>, kind: Seq<char>, status: Seq<char>, since: i64) -> spec_fn(
    assignments::AssignmentView,
) -> bool {
    |a: assignments::AssignmentView| given(link_id, kind, since)(a) && a.status == status
}

/// One of them that was not revoked.
pub open spec fn kept(link_id: Seq<char>, kind: Seq<char>, since: i64) -> spec_fn(
    assignments::AssignmentView,
) -> bool {
    |a: assignments::AssignmentView| given(link_id, kind, since)(a) && a.status != "revoked"@
}

/// The assignment was escalated from this one.
pub open spec fn escalated_from(id: Seq<char>) -> spec_fn(assignments::AssignmentView) -> bool {
    |a: assignments::AssignmentView| a.escalated_from_assignment_id == Some(id)
}

/// A failed task of this link, made in the period, that was escalated.
pub open spec fn escalated(
    all: Seq<assignments::AssignmentView>,
    link_id: Seq<char>,
    since: i64,
) -> spec_fn(assignments::AssignmentView) -> bool {
    |a: assignments::AssignmentView|
        given_as(link_id, "task"@, "failed"@, since)(a) && any_row(all, escalated_from(a.id))
}

/// How tasks went.
pub open spec fn task_counts(db: LedgerView, link_id: Seq<char>, since: i64) -> Result<
    TaskCounts,
    DbError,
> {
    let all = db.assignments;
    match (
        stored(all.filter(given(link_id, "task"@, since)).len() as int),
        stored(all.filter(given_as(link_id, "task"@, "completed"@, since)).len() as int),
        stored(all.filter(given_as(link_id, "task"@, "failed"@, since)).len() as int),
        stored(all.filter(escalated(all, link_id, since)).len() as int),
    ) {
        (Ok(assigned), Ok(completed), Ok(failed), Ok(escalated)) => Ok(
            TaskCounts { assigned, completed, failed, escalated },
        ),
        _ => Err(DbError::OutOfRange),
    }
}

/// Counts assignments with a status.
fn count_given_as(db: &Ledger, link_id: &str, kind: &str, status: &str, since: i64) -> (r: usize)
    ensures
        r == db@.assignments.filter(given_as(link_id@, kind@, status@, since)).len(),
{
    let ghost p = given_as(link_id@, kind@, status@, since);
    let test = |a: &assignments::Assignment| -> (b: bool)
        ensures
            b == p(a@),
        {
            same(a.link_id.as_str(), link_id) && same(a.kind.as_str(), kind)
                && a.assigned_at >= since
                && same(a.status.as_str(), status)
        };
    count(&db.assignments, Ghost(p), test)
}

/// Counts assignments that were not revoked.
fn count_kept(db: &Ledger, link_id: &str, kind: &str, since: i64) -> (r: usize)
    ensures
        r == db@.assignments.filter(kept(link_id@, kind@, since)).len(),
{
    let ghost p = kept(link_id@, kind@, since);
    let test = |a: &assignments::Assignment| -> (b: bool)
        ensures
            b == p(a@),
        {
            same(a.link_id.as_str(), link_id) && same(a.kind.as_str(), kind)
                && a.assigned_at >= since
                && !same(a.status.as_str(), "revoked")
        };
    count(&db.assignments, Ghost(p), test)
}

/// Whether something was escalated from an assignment.
fn was_escalated(db: &Ledger, id: &str) -> (r: bool)
    ensures
        r == any_row(db@.assignments, escalated_from(id@)),
{
    let ghost p = escalated_from(id@);
    let test = |a: &assignments::Assignment| -> (b: bool)
        ensures
            b == p(a@),
        { opt_is(&a.escalated_from_assignment_id, id) };
    any(&db.assignments, Ghost(p), test)
}

/// How tasks went.
fn count_tasks(db: &Ledger, link_id: &str, since: i64) -> (r: Result<TaskCounts, DbError>)
    ensures
        r == task_counts(db@, link_id@, since),
{
    let ghost p = given(link_id@, "task"@, since);
    let test = |a: &assignments::Assignment| -> (b: bool)
        ensures
            b == p(a@),
        { same(a.link_id.as_str(), link_id) && same(a.kind.as_str(), "task")
            && a.assigned_at >= since };
    let ghost q = escalated(db@.assignments, link_id@, since);
    let up = |a: &assignments::Assignment| -> (b: bool)
        ensures
            b == q(a@),
        {
            same(a.link_id.as_str(), link_id) && same(a.kind.as_str(), "task")
                && a.assigned_at >= since
                && same(a.status.as_str(), "failed") && was_escalated(db, a.id.as_str())
        };
    match (
        counted(count(&db.assignments, Ghost(p), test)),
        counted(count_given_as(db, link_id, "task", "completed", since)),
        counted(count_given_as(db, link_id, "task", "failed", since)),
        counted(count(&db.assignments, Ghost(q), up)),
    ) {
        (Ok(assigned), Ok(completed), Ok(failed), Ok(escalated)) => Ok(
            TaskCounts { assigned, completed, failed, escalated },
        ),
        _ => Err(DbError::OutOfRange),
    }
}

/// A session with this id of this submissive.
pub open spec fn own_session(session_id: Seq<char>, submissive_id: Seq<char>) -> spec_fn(
    confinement::SessionView,
) -> bool {
    |s: confinement::SessionView| s.id == session_id && s.submissive_id == submissive_id
}

/// An adjustment of one of this submissive's sessions, made in the period.
pub open spec fn adjustment_of(
    sessions: Seq<confinement::SessionView>,
    submissive_id: Seq<char>,
    since: i64,
) -> spec_fn(confinement::AdjustmentRowView) -> bool {
    |a: confinement::AdjustmentRowView|
        a.adjusted_at >= since && any_row(sessions, own_session(a.session_id, submissive_id))
}

/// What an adjustment adds.
pub open spec fn addition() -> spec_fn(confinement::AdjustmentRowView) -> int {
    |a: confinement::AdjustmentRowView|
        if a.delta_seconds > 0 {
            a.delta_seconds as int
        } else {
            0
        }
}

/// What an adjustment removes.
pub open spec fn removal() -> spec_fn(confinement::AdjustmentRowView) -> int {
    |a: confinement::AdjustmentRowView|
        if a.delta_seconds < 0 {
            -a.delta_seconds
        } else {
            0
        }
}

/// How far planned releases were moved.
pub open spec fn adjustments_in(db: LedgerView, submissive_id: Seq<char>, since: i64) -> Result<
    TimerAdjustments,
    DbError,
> {
    let made = db.adjustments.filter(adjustment_of(db.confinements, submissive_id, since));
    match (added_up(made, addition()), added_up(made, removal())) {
        (Ok(added_seconds), Ok(removed_seconds)) => Ok(
            TimerAdjustments { added_seconds, removed_seconds },
        ),
        _ => Err(DbError::OutOfRange),
    }
}

/// Whether a session is one of a submissive's.
fn is_own_session(db: &Ledger, session_id: &str, submissive_id: &str) -> (r: bool)
    ensures
        r == any_row(db@.confinements, own_session(session_id@, submissive_id@)),
{
    let ghost p = own_session(session_id@, submissive_id@);
    let test = |s: &confinement::Session| -> (b: bool)
        ensures
            b == p(s@),
        { same(s.id.as_str(), session_id) && same(s.submissive_id.as_str(), submissive_id) };
    any(&db.confinements, Ghost(p), test)
}

/// How far planned releases were moved.
fn sum_adjustments(db: &Ledger, submissive_id: &str, since: i64) -> (r: Result<
    TimerAdjustments,
    DbError,
>)
    ensures
        r == adjustments_in(db@, submissive_id@, since),
{
    let ghost p = adjustment_of(db@.confinements, submissive_id@, since);
    let test = |a: &confinement::AdjustmentRow| -> (b: bool)
        ensures
            b == p(a@),
        { a.adjusted_at >= since && is_own_session(db, a.session_id.as_str(), submissive_id) };
    let made = select(&db.adjustments, Ghost(p), test);
    let ghost f = addition();
    let ghost h = removal();
    let g = |a: &confinement::AdjustmentRow| -> (n: i128)
        ensures
            n == f(a@),
            -0x1_0000_0000_0000_0000 <= n <= 0x1_0000_0000_0000_0000,
        {
            if a.delta_seconds > 0 {
                a.delta_seconds as i128
            } else {
                0
            }
        };
    let k = |a: &confinement::AdjustmentRow| -> (n: i128)
        ensures
            n == h(a@),
            -0x1_0000_0000_0000_0000 <= n <= 0x1_0000_0000_0000_0000,
        {
            if a.delta_seconds < 0 {
                -(a.delta_seconds as i128)
            } else {
                0
            }
        };
    match (add_up(&made, Ghost(f), g), add_up(&made, Ghost(h), k)) {
        (Ok(added_seconds), Ok(removed_seconds)) => Ok(
            TimerAdjustments { added_seconds, removed_seconds },
        ),
        _ => Err(DbError::OutOfRange),
    }
}

/// The report, given the percentage that was spent locked. It fails without such a link, and where
/// a number cannot be stored.
pub open spec fn report(
    db: LedgerView,
    link_id: Seq<char>,
    submissive_id: Seq<char>,
    period: Seq<char>,
    consistency_pct: i64,
    now: i64,
) -> Result<StatsView, DbError> {
    let sessions = sessions_of(db, submissive_id);
    match start_of(db, link_id, period, now) {
        Err(e) => Err(e),
        Ok(since) => match (
            (
                stored(streak(sessions, now)),
                stored(largest(sessions, length(now), 0)),
                added_up(sessions, length(now)),
                lengths_of(sessions.filter(ended_within(since, now)), now),
            ),
            (
                verification_counts(db, link_id, since, now),
                task_counts(db, link_id, since),
                stored(db.assignments.filter(kept(link_id, "reward"@, since)).len() as int),
                stored(db.assignments.filter(kept(link_id, "punishment"@, since)).len() as int),
                adjustments_in(db, submissive_id, since),
            ),
        ) {
            (
                (
                    Ok(current_streak_seconds),
                    Ok(personal_best_streak_seconds),
                    Ok(lifetime_locked_seconds),
                    Ok(session_lengths),
                ),
                (
                    Ok(verification),
                    Ok(tasks),
                    Ok(rewards_given),
                    Ok(punishments_given),
                    Ok(timer_adjustments),
                ),
            ) => Ok(
                StatsView {
                    period,
                    current_streak_seconds,
                    personal_best_streak_seconds,
                    consistency_pct,
                    session_lengths,
                    verification,
                    tasks,
                    rewards_given,
                    punishments_given,
                    timer_adjustments,
                    lifetime_locked_seconds,
                },
            ),
            _ => Err(DbError::OutOfRange),
        },
    }
}

/// The sessions that ended between two times.
fn ended_sessions(v: &Vec<confinement::Session>, since: i64, now: i64) -> (r: Vec<
    confinement::Session,
>)
    ensures
        rows(r@) == rows(v@).filter(ended_within(since, now)),
{
    let ghost p = ended_within(since, now);
    let test = |s: &confinement::Session| -> (b: bool)
        ensures
            b == p(s@),
        {
            match s.ended_at {
                Some(t) => since <= t && t <= now,
                None => false,
            }
        };
    select(v, Ghost(p), test)
}

/// The report on a submissive, given the percentage that was spent locked.
pub fn compute_with(
    db: &Ledger,
    link_id: &str,
    submissive_id: &str,
    period: &str,
    consistency_pct: i64,
    now: i64,
) -> (r: Result<Stats, DbError>)
    ensures
        match report(db@, link_id@, submissive_id@, period@, consistency_pct, now) {
            Ok(s) => r is Ok && r->Ok_0@ == s,
            Err(e) => r == Err::<Stats, DbError>(e),
        },
{
    let since = match find_start(db, link_id, period, now) {
        Ok(t) => t,
        Err(e) => {
            return Err(e);
        },
    };
    let sessions = list_sessions(db, submissive_id);
    let ghost f = length(now);
    let g = |s: &confinement::Session| -> (n: i128)
        ensures
            n == f(s@),
            -0x1_0000_0000_0000_0000 <= n <= 0x1_0000_0000_0000_0000,
        { length_of(s, now) };
    match (
        (
            narrow(measure_streak(&sessions, now)),
            narrow(find_largest(&sessions, Ghost(f), g, 0)),
            add_up(&sessions, Ghost(f), g),
            measure_lengths(&ended_sessions(&sessions, since, now), now),
        ),
        (
            count_verifications(db, link_id, since, now),
            count_tasks(db, link_id, since),
            counted(count_kept(db, link_id, "reward", since)),
            counted(count_kept(db, link_id, "punishment", since)),
            sum_adjustments(db, submissive_id, since),
        ),
    ) {
        (
            (
                Ok(current_streak_seconds),
                Ok(personal_best_streak_seconds),
                Ok(lifetime_locked_seconds),
                Ok(session_lengths),
            ),
            (
                Ok(verification),
                Ok(tasks),
                Ok(rewards_given),
                Ok(punishments_given),
                Ok(timer_adjustments),
            ),
        ) => Ok(
            Stats {
                period: own(period),
                current_streak_seconds,
                personal_best_streak_seconds,
                consistency_pct,
                session_lengths,
                verification,
                tasks,
                rewards_given,
                punishments_given,
                timer_adjustments,
                lifetime_locked_seconds,
            },
        ),
        _ => Err(DbError::OutOfRange),
    }
}

/// The report on a submissive. `percent` turns the seconds that were spent locked, and the seconds
/// of the period, into a percentage.
pub fn compute<F: Fn(i64, i64) -> i64>(
    db: &Ledger,
    link_id: &str,
    submissive_id: &str,
    period: &str,
    percent: F,
    now: i64,
) -> (r: Result<Stats, DbError>)
    requires
        forall|locked: i64, whole: i64| whole >= 1 ==> #[trigger] percent.requires((locked, whole)),
    ensures
        match share(db@, link_id@, submissive_id@, period@, now) {
            Err(e) => r == Err::<Stats, DbError>(e),
            Ok((locked, whole)) => exists|pct: i64| #[trigger]
                percent.ensures((locked, whole), pct) && match report(
                    db@,
                    link_id@,
                    submissive_id@,
                    period@,
                    pct,
                    now,
                ) {
                    Ok(s) => r is Ok && r->Ok_0@ == s,
                    Err(e) => r == Err::<Stats, DbError>(e),
                },
        },
{
    match locked_share(db, link_id, submissive_id, period, now) {
        Err(e) => Err(e),
        Ok((locked, whole)) => {
            let pct: i64 = percent(locked, whole);
            assert(percent.ensures((locked, whole), pct));
            compute_with(db, link_id, submissive_id, period, pct, now)
        },
    }
}

/// `largest` is at least `least` and each of the numbers.
proof fn lemma_largest<V>(s: Seq<V>, f: spec_fn(V) -> int, least: int)
    ensures
        largest(s, f, least) >= least,
        forall|i: int| 0 <= i < s.len() ==> f(#[trigger] s[i]) <= largest(s, f, least),
    decreases s.len(),
{
    if s.len() > 0 {
        lemma_largest(s.drop_last(), f, least);
        assert forall|i: int| 0 <= i < s.len() implies f(#[trigger] s[i]) <= largest(
            s,
            f,
            least,
        ) by {
            if i < s.len() - 1 {
                assert(s.drop_last()[i] == s[i]);
            }
        }
    }
}

/// A sum lies between so many times the least and so many times the greatest.
proof fn lemma_sum_between<V>(s: Seq<V>, f: spec_fn(V) -> int, low: int, high: int)
    requires
        forall|i: int| 0 <= i < s.len() ==> low <= f(#[trigger] s[i]) <= high,
    ensures
        added_up(s, f) matches Ok(total) ==> low * s.len() <= total <= high * s.len(),
    decreases s.len(),
{
    if s.len() > 0 {
        let t = s.drop_last();
        assert forall|i: int| 0 <= i < t.len() implies low <= f(#[trigger] t[i]) <= high by {
            assert(t[i] == s[i]);
        }
        lemma_sum_between(t, f, low, high);
        let n = t.len() as int;
        assert(low <= f(s[n]) <= high);
        assert(low * (n + 1) == low * n + low) by (nonlinear_arith);
        assert(high * (n + 1) == high * n + high) by (nonlinear_arith);
    }
}

/// A quotient of a sum of `n` numbers lies between the least and the greatest of them.
proof fn lemma_average_between(total: int, n: int, low: int, high: int)
    requires
        n > 0,
        low * n <= total <= high * n,
    ensures
        low <= toward_zero(total, n) <= high,
{
    if total >= 0 {
        assert(low <= total / n <= high) by (nonlinear_arith)
            requires
                n > 0,
                low * n <= total <= high * n,
        ;
    } else {
        let m = -total;
        assert((-high) * n <= m <= (-low) * n) by (nonlinear_arith)
            requires
                low * n <= total <= high * n,
                m == -total,
        ;
        assert(-high <= m / n <= -low) by (nonlinear_arith)
            requires
                n > 0,
                (-high) * n <= m <= (-low) * n,
        ;
    }
}

/// The average of the lengths lies between the shortest and the longest.
pub proof fn law_average_lies_between(s: Seq<confinement::SessionView>, now: i64)
    ensures
        lengths_of(s, now) matches Ok(l) ==> l.shortest_seconds <= l.average_seconds
            <= l.longest_seconds,
{
    if s.len() > 0 {
        let f = length(now);
        let h = shortness(now);
        lemma_largest(s, f, f(s[0]));
        lemma_largest(s, h, h(s[0]));
        let low = -largest(s, h, h(s[0]));
        let high = largest(s, f, f(s[0]));
        assert forall|i: int| 0 <= i < s.len() implies low <= f(#[trigger] s[i]) <= high by {
            assert(h(s[i]) == -f(s[i]));
        }
        lemma_sum_between(s, f, low, high);
        if let Ok(total) = added_up(s, f) {
            lemma_average_between(total as int, s.len() as int, low, high);
        }
    }
}

/// Rows that meet one of two predicates that exclude each other, and imply a third, are no more
/// than those that meet the third.
proof fn lemma_parts<V>(
    s: Seq<V>,
    whole: spec_fn(V) -> bool,
    one: spec_fn(V) -> bool,
    other: spec_fn(V) -> bool,
)
    requires
        forall|x: V| #[trigger] one(x) ==> whole(x),
        forall|x: V| #[trigger] other(x) ==> whole(x) && !one(x),
    ensures
        s.filter(one).len() + s.filter(other).len() <= s.filter(whole).len(),
    decreases s.len(),
{
    reveal(Seq::filter);
    if s.len() > 0 {
        lemma_parts(s.drop_last(), whole, one, other);
        assert(one(s.last()) ==> whole(s.last()));
        assert(other(s.last()) ==> whole(s.last()) && !one(s.last()));
    }
}

/// The counts nest: what was escalated had failed, and what was completed or had failed was
/// assigned, and not both.
pub proof fn law_task_counts_nest(db: LedgerView, link_id: Seq<char>, since: i64)
    ensures
        task_counts(db, link_id, since) matches Ok(t) ==> 0 <= t.escalated <= t.failed && 0
            <= t.completed && t.completed + t.failed <= t.assigned,
{
    reveal_strlit("completed");
    reveal_strlit("failed");
    assert("completed"@.len() != "failed"@.len());
    let all = db.assignments;
    let done = given_as(link_id, "task"@, "completed"@, since);
    let failed = given_as(link_id, "task"@, "failed"@, since);
    lemma_parts(all, given(link_id, "task"@, since), done, failed);
    lemma_parts(
        all,
        failed,
        escalated(all, link_id, since),
        |a: assignments::AssignmentView| false,
    );
}

/// An open session is the current streak, and counts toward no length.
pub proof fn law_open_session_is_the_streak(
    s: Seq<confinement::SessionView>,
    open: confinement::SessionView,
    since: i64,
    now: i64,
)
    requires
        s.filter(is_open()) == seq![open],
    ensures
        streak(s, now) == now - open.started_at,
        !ended_within(since, now)(open),
{
    lemma_filter_meets(s, is_open());
    assert(is_open()(s.filter(is_open())[0]));
}

/// A period starts so many days back as it says, and `all` with the link.
pub proof fn law_periods_start_when_they_say(
    db: LedgerView,
    link_id: Seq<char>,
    period: Seq<char>,
    now: i64,
    n: int,
)
    requires
        only(db.links, n, |l: links::LinkView| l.id == link_id),
    ensures
        ({
            let since: int = if period == "30d"@ {
                now - 30 * 86400
            } else if period == "90d"@ {
                now - 90 * 86400
            } else if period == "365d"@ {
                now - 365 * 86400
            } else {
                db.links[n].started_at as int
            };
            match start_of(db, link_id, period, now) {
                Ok(t) => t == since,
                Err(e) => e == DbError::OutOfRange && !(i64::MIN <= since <= i64::MAX),
            }
        }),
{
    lemma_find_only(
        db.links,
        n,
        |l: links::LinkView| l.id == link_id,
        links::by_id(link_id),
    );
}

/// Only these periods can be asked for.
pub proof fn law_four_periods(period: Seq<char>)
    ensures
        is_period(period) <==> (period == "all"@ || period == "30d"@ || period == "90d"@ || period
            == "365d"@),
{
}

/// What a report counts, each by what it says: the verification proofs of the link that were
/// verified and those that failed, the codes that expired unused, the tasks that were assigned,
/// completed, failed and escalated, and the rewards and punishments that were not revoked; all of
/// them since the period started.
pub proof fn law_reports_count_what_they_say(
    db: LedgerView,
    link_id: Seq<char>,
    submissive_id: Seq<char>,
    period: Seq<char>,
    pct: i64,
    now: i64,
    since: i64,
)
    requires
        report(db, link_id, submissive_id, period, pct, now) is Ok,
        start_of(db, link_id, period, now) == Ok::<i64, DbError>(since),
    ensures
        ({
            let r = report(db, link_id, submissive_id, period, pct, now)->Ok_0;
            &&& r.period == period
            &&& r.consistency_pct == pct
            &&& r.verification.verified == db.submissions.filter(
                |s: proofs::SubmissionView|
                    s.link_id == link_id && s.purpose == "verification"@ && s.status == "verified"@
                        && s.submitted_at >= since,
            ).len()
            &&& r.verification.failed == db.submissions.filter(
                |s: proofs::SubmissionView|
                    s.link_id == link_id && s.purpose == "verification"@ && s.status == "failed"@
                        && s.submitted_at >= since,
            ).len()
            &&& r.verification.missed == db.codes.filter(
                |c: codes::CodeView|
                    c.link_id == link_id && c.consumed_at is None && c.expires_at < now
                        && c.issued_at >= since,
            ).len()
            &&& r.tasks.assigned == db.assignments.filter(
                |a: assignments::AssignmentView|
                    a.link_id == link_id && a.kind == "task"@ && a.assigned_at >= since,
            ).len()
            &&& r.tasks.completed == db.assignments.filter(
                |a: assignments::AssignmentView|
                    a.link_id == link_id && a.kind == "task"@ && a.status == "completed"@
                        && a.assigned_at >= since,
            ).len()
            &&& r.tasks.failed == db.assignments.filter(
                |a: assignments::AssignmentView|
                    a.link_id == link_id && a.kind == "task"@ && a.status == "failed"@
                        && a.assigned_at >= since,
            ).len()
            &&& r.tasks.escalated == db.assignments.filter(
                |a: assignments::AssignmentView|
                    a.link_id == link_id && a.kind == "task"@ && a.status == "failed"@
                        && a.assigned_at >= since && any_row(
                        db.assignments,
                        |c: assignments::AssignmentView|
                            c.escalated_from_assignment_id == Some(a.id),
                    ),
            ).len()
            &&& r.rewards_given == db.assignments.filter(
                |a: assignments::AssignmentView|
                    a.link_id == link_id && a.kind == "reward"@ && a.status != "revoked"@
                        && a.assigned_at >= since,
            ).len()
            &&& r.punishments_given == db.assignments.filter(
                |a: assignments::AssignmentView|
                    a.link_id == link_id && a.kind == "punishment"@ && a.status != "revoked"@
                        && a.assigned_at >= since,
            ).len()
        }),
{
    assert((|s: proofs::SubmissionView|
        s.link_id == link_id && s.purpose == "verification"@ && s.status == "verified"@
            && s.submitted_at >= since) =~= verification(link_id, "verified"@, since));
    assert((|s: proofs::SubmissionView|
        s.link_id == link_id && s.purpose == "verification"@ && s.status == "failed"@
            && s.submitted_at >= since) =~= verification(link_id, "failed"@, since));
    assert((|c: codes::CodeView|
        c.link_id == link_id && c.consumed_at is None && c.expires_at < now && c.issued_at
            >= since) =~= missed_code(link_id, since, now));
    assert((|a: assignments::AssignmentView|
        a.link_id == link_id && a.kind == "task"@ && a.assigned_at >= since) =~= given(
        link_id,
        "task"@,
        since,
    ));
    assert((|a: assignments::AssignmentView|
        a.link_id == link_id && a.kind == "task"@ && a.status == "completed"@ && a.assigned_at
            >= since) =~= given_as(link_id, "task"@, "completed"@, since));
    assert((|a: assignments::AssignmentView|
        a.link_id == link_id && a.kind == "task"@ && a.status == "failed"@ && a.assigned_at
            >= since) =~= given_as(link_id, "task"@, "failed"@, since));
    assert((|a: assignments::AssignmentView|
        a.link_id == link_id && a.kind == "task"@ && a.status == "failed"@ && a.assigned_at
            >= since && any_row(
            db.assignments,
            |c: assignments::AssignmentView| c.escalated_from_assignment_id == Some(a.id),
        )) =~= escalated(db.assignments, link_id, since)) by {
        assert forall|a: assignments::AssignmentView| #[trigger]
            escalated_from(a.id) =~= (|c: assignments::AssignmentView|
                c.escalated_from_assignment_id == Some(a.id)) by {}
    }
    assert((|a: assignments::AssignmentView|
        a.link_id == link_id && a.kind == "reward"@ && a.status != "revoked"@ && a.assigned_at
            >= since) =~= kept(link_id, "reward"@, since));
    assert((|a: assignments::AssignmentView|
        a.link_id == link_id && a.kind == "punishment"@ && a.status != "revoked"@ && a.assigned_at
            >= since) =~= kept(link_id, "punishment"@, since));
}

/// One verification proof of the link more raises one count of a report and no other: what was
/// verified the one, what failed the other. A proof of another link, of a task, from before the
/// period, or not reviewed that way raises neither.
pub proof fn law_a_proof_counts_once(
    db: LedgerView,
    link_id: Seq<char>,
    submissive_id: Seq<char>,
    period: Seq<char>,
    pct: i64,
    now: i64,
    since: i64,
    s: proofs::SubmissionView,
)
    requires
        report(db, link_id, submissive_id, period, pct, now) is Ok,
        report(
            LedgerView { submissions: db.submissions.push(s), ..db },
            link_id,
            submissive_id,
            period,
            pct,
            now,
        ) is Ok,
        start_of(db, link_id, period, now) == Ok::<i64, DbError>(since),
    ensures
        ({
            let r = report(db, link_id, submissive_id, period, pct, now)->Ok_0;
            let t = report(
                LedgerView { submissions: db.submissions.push(s), ..db },
                link_id,
                submissive_id,
                period,
                pct,
                now,
            )->Ok_0;
            let counts = s.link_id == link_id && s.purpose == "verification"@ && s.submitted_at
                >= since;
            &&& counts && s.status == "verified"@ ==> t.verification.verified
                == r.verification.verified + 1 && t.verification.failed == r.verification.failed
            &&& counts && s.status == "failed"@ ==> t.verification.failed == r.verification.failed
                + 1 && t.verification.verified == r.verification.verified
            &&& !counts || (s.status != "verified"@ && s.status != "failed"@) ==> t.verification
                == r.verification
            &&& t == (StatsView { verification: t.verification, ..r })
            &&& t.verification.missed == r.verification.missed
        }),
{
    reveal_strlit("verified");
    reveal_strlit("failed");
    assert("verified"@.len() != "failed"@.len());
    lemma_filter_push(db.submissions, s, verification(link_id, "verified"@, since));
    lemma_filter_push(db.submissions, s, verification(link_id, "failed"@, since));
}

proof fn lemma_added_up<V>(s: Seq<V>, f: spec_fn(V) -> int)
    ensures
        added_up(s, f) matches Ok(total) ==> total == sum_of(s.map_values(f)),
    decreases s.len(),
{
    if s.len() > 0 {
        lemma_added_up(s.drop_last(), f);
        assert(s.map_values(f).drop_last() =~= s.drop_last().map_values(f));
        assert(s.map_values(f).last() == f(s.last()));
    }
}

/// What a report says of locks: the whole time that the submissive was ever locked, the longest that
/// a session lasted, and how long the open one has, where one is open.
pub proof fn law_reports_time_the_locks(
    db: LedgerView,
    link_id: Seq<char>,
    submissive_id: Seq<char>,
    period: Seq<char>,
    pct: i64,
    now: i64,
)
    requires
        report(db, link_id, submissive_id, period, pct, now) is Ok,
    ensures
        ({
            let r = report(db, link_id, submissive_id, period, pct, now)->Ok_0;
            let own = db.confinements.filter(
                |s: confinement::SessionView| s.submissive_id == submissive_id,
            );
            &&& r.lifetime_locked_seconds == sum_of(
                own.map_values(
                    |s: confinement::SessionView|
                        (match s.ended_at {
                            Some(t) => t,
                            None => now,
                        }) - s.started_at,
                ),
            )
            &&& r.personal_best_streak_seconds >= 0
            &&& forall|i: int|
                0 <= i < own.len() ==> (match (#[trigger] own[i]).ended_at {
                    Some(t) => t,
                    None => now,
                }) - own[i].started_at <= r.personal_best_streak_seconds
            &&& r.personal_best_streak_seconds > 0 ==> exists|i: int|
                0 <= i < own.len() && (match (#[trigger] own[i]).ended_at {
                    Some(t) => t,
                    None => now,
                }) - own[i].started_at == r.personal_best_streak_seconds
            &&& (forall|i: int| 0 <= i < own.len() ==> (#[trigger] own[i]).ended_at is Some)
                ==> r.current_streak_seconds == 0
            &&& forall|i: int|
                #![trigger own[i]]
                0 <= i < own.len() && own[i].ended_at is None && (forall|j: int|
                    0 <= j < own.len() && j != i ==> (#[trigger] own[j]).ended_at is Some)
                    ==> r.current_streak_seconds == now - own[i].started_at
        }),
{
    let p = |s: confinement::SessionView| s.submissive_id == submissive_id;
    assert(p =~= of_submissive(submissive_id));
    let own = db.confinements.filter(p);
    let f = |s: confinement::SessionView|
        (match s.ended_at {
            Some(t) => t,
            None => now,
        }) - s.started_at;
    assert(f =~= length(now));
    lemma_added_up(own, length(now));
    lemma_largest(own, length(now), 0);
    lemma_largest_attained(own, length(now), 0);
    let r = report(db, link_id, submissive_id, period, pct, now)->Ok_0;
    let best = r.personal_best_streak_seconds as int;
    assert forall|i: int| 0 <= i < own.len() implies (match (#[trigger] own[i]).ended_at {
        Some(t) => t,
        None => now,
    }) - own[i].started_at <= best by {
        assert(length(now)(own[i]) <= best);
    }
    if best > 0 {
        let i = choose|i: int| 0 <= i < own.len() && length(now)(#[trigger] own[i]) == best;
        assert((match own[i].ended_at {
            Some(t) => t,
            None => now,
        }) - own[i].started_at == best);
    }
    lemma_filter_meets(own, is_open());
    if own.filter(is_open()).len() > 0 {
        let o = own.filter(is_open()).last();
        assert(own.filter(is_open()).contains(o));
        lemma_filter_contains(own, is_open(), o);
        let k = choose|k: int| 0 <= k < own.len() && own[k] == o;
        assert(own[k].ended_at is None);
    }
    assert forall|i: int|
        #![trigger own[i]]
        0 <= i < own.len() && own[i].ended_at is None && (forall|j: int|
            0 <= j < own.len() && j != i ==> (
            #[trigger] own[j]).ended_at is Some) implies r.current_streak_seconds == now
        - own[i].started_at by {
        lemma_filter_contains(own, is_open(), own[i]);
        assert(own.filter(is_open()).len() > 0);
        let o = own.filter(is_open()).last();
        assert(own.filter(is_open()).contains(o));
        lemma_filter_contains(own, is_open(), o);
        let k = choose|k: int| 0 <= k < own.len() && own[k] == o;
        assert(k == i);
    }
}

/// The largest of some numbers is one of them, or the least that was given.
proof fn lemma_largest_attained<V>(s: Seq<V>, f: spec_fn(V) -> int, least: int)
    ensures
        largest(s, f, least) == least || exists|i: int|
            0 <= i < s.len() && f(#[trigger] s[i]) == largest(s, f, least),
        largest(s, f, least) >= least,
    decreases s.len(),
{
    if s.len() > 0 {
        let rest = s.drop_last();
        lemma_largest_attained(rest, f, least);
        let top = largest(s, f, least);
        if top == f(s.last()) {
            assert(f(s[s.len() - 1]) == top);
        } else if top != least {
            let i = choose|i: int| 0 <= i < rest.len() && f(#[trigger] rest[i]) == top;
            assert(f(s[i]) == top);
        }
    }
}

/// The lengths of the sessions that ended in the period: the shortest and the longest of them, and
/// their average, rounded toward zero; zeros where none ended.
pub proof fn law_reports_measure_what_ended(
    db: LedgerView,
    link_id: Seq<char>,
    submissive_id: Seq<char>,
    period: Seq<char>,
    pct: i64,
    now: i64,
    since: i64,
)
    requires
        report(db, link_id, submissive_id, period, pct, now) is Ok,
        start_of(db, link_id, period, now) == Ok::<i64, DbError>(since),
    ensures
        ({
            let r = report(db, link_id, submissive_id, period, pct, now)->Ok_0.session_lengths;
            let ended = db.confinements.filter(
                |s: confinement::SessionView| s.submissive_id == submissive_id,
            ).filter(
                |s: confinement::SessionView|
                    s.ended_at is Some && since <= s.ended_at->0 && s.ended_at->0 <= now,
            );
            let sum = sum_of(
                ended.map_values(|s: confinement::SessionView| s.ended_at->0 - s.started_at),
            );
            &&& ended.len() == 0 ==> r.shortest_seconds == 0 && r.longest_seconds == 0
                && r.average_seconds == 0
            &&& ended.len() > 0 ==> {
                &&& forall|i: int|
                    0 <= i < ended.len() ==> r.shortest_seconds <= (
                    #[trigger] ended[i]).ended_at->0 - ended[i].started_at <= r.longest_seconds
                &&& exists|i: int|
                    0 <= i < ended.len() && (#[trigger] ended[i]).ended_at->0 - ended[i].started_at
                        == r.shortest_seconds
                &&& exists|i: int|
                    0 <= i < ended.len() && (#[trigger] ended[i]).ended_at->0 - ended[i].started_at
                        == r.longest_seconds
                &&& sum >= 0 ==> r.average_seconds == sum / ended.len() as int
                &&& sum < 0 ==> r.average_seconds == -((-sum) / ended.len() as int)
            }
        }),
{
    let p = |s: confinement::SessionView| s.submissive_id == submissive_id;
    assert(p =~= of_submissive(submissive_id));
    let q = |s: confinement::SessionView|
        s.ended_at is Some && since <= s.ended_at->0 && s.ended_at->0 <= now;
    assert(q =~= ended_within(since, now));
    let ended = db.confinements.filter(p).filter(q);
    lemma_filter_meets(db.confinements.filter(p), q);
    let f = length(now);
    let h = shortness(now);
    let g = |s: confinement::SessionView| s.ended_at->0 - s.started_at;
    lemma_added_up(ended, f);
    assert(ended.map_values(g) =~= ended.map_values(f)) by {
        assert forall|i: int| 0 <= i < ended.len() implies #[trigger] ended.map_values(g)[i]
            == ended.map_values(f)[i] by {
            assert(q(ended[i]));
        }
    }
    if ended.len() > 0 {
        let r = report(db, link_id, submissive_id, period, pct, now)->Ok_0.session_lengths;
        lemma_largest(ended, f, f(ended[0]));
        lemma_largest(ended, h, h(ended[0]));
        lemma_largest_attained(ended, f, f(ended[0]));
        lemma_largest_attained(ended, h, h(ended[0]));
        assert forall|i: int| 0 <= i < ended.len() implies r.shortest_seconds <= (
        #[trigger] ended[i]).ended_at->0 - ended[i].started_at <= r.longest_seconds by {
            assert(q(ended[i]));
            assert(h(ended[i]) == -f(ended[i]));
        }
        assert(q(ended[0]));
        if largest(ended, f, f(ended[0])) != f(ended[0]) {
            let i = choose|i: int|
                0 <= i < ended.len() && f(#[trigger] ended[i]) == largest(ended, f, f(ended[0]));
            assert(q(ended[i]));
            assert(ended[i].ended_at->0 - ended[i].started_at == r.longest_seconds);
        } else {
            assert(ended[0].ended_at->0 - ended[0].started_at == r.longest_seconds);
        }
        if largest(ended, h, h(ended[0])) != h(ended[0]) {
            let i = choose|i: int|
                0 <= i < ended.len() && h(#[trigger] ended[i]) == largest(ended, h, h(ended[0]));
            assert(q(ended[i]));
            assert(ended[i].ended_at->0 - ended[i].started_at == r.shortest_seconds);
        } else {
            assert(ended[0].ended_at->0 - ended[0].started_at == r.shortest_seconds);
        }
        let sum = sum_of(ended.map_values(g));
        let n = ended.len() as int;
        lemma_quotient(sum, n);
    }
}

/// A quotient toward zero is no larger than what is divided.
proof fn lemma_quotient(a: int, b: int)
    requires
        b > 0,
    ensures
        a >= 0 ==> 0 <= a / b <= a,
        a < 0 ==> 0 <= (-a) / b <= -a,
{
    if a >= 0 {
        assert(0 <= a / b <= a) by (nonlinear_arith)
            requires
                a >= 0,
                b > 0,
        ;
    } else {
        let c = -a;
        assert(0 <= c / b <= c) by (nonlinear_arith)
            requires
                c >= 0,
                b > 0,
        ;
    }
}

/// What was added to planned releases and what was taken from them in the period, each as a number
/// of seconds that is not negative: additions are the adjustments forward of the submissive's own
/// sessions, removals those back.
pub proof fn law_reports_add_up_adjustments(
    db: LedgerView,
    link_id: Seq<char>,
    submissive_id: Seq<char>,
    period: Seq<char>,
    pct: i64,
    now: i64,
    since: i64,
)
    requires
        report(db, link_id, submissive_id, period, pct, now) is Ok,
        start_of(db, link_id, period, now) == Ok::<i64, DbError>(since),
    ensures
        ({
            let r = report(db, link_id, submissive_id, period, pct, now)->Ok_0.timer_adjustments;
            let own = db.adjustments.filter(
                |a: confinement::AdjustmentRowView|
                    a.adjusted_at >= since && any_row(
                        db.confinements,
                        |s: confinement::SessionView|
                            s.id == a.session_id && s.submissive_id == submissive_id,
                    ),
            );
            &&& r.added_seconds == sum_of(
                own.map_values(
                    |a: confinement::AdjustmentRowView|
                        if a.delta_seconds > 0 {
                            a.delta_seconds as int
                        } else {
                            0
                        },
                ),
            )
            &&& r.removed_seconds == sum_of(
                own.map_values(
                    |a: confinement::AdjustmentRowView|
                        if a.delta_seconds < 0 {
                            -(a.delta_seconds as int)
                        } else {
                            0
                        },
                ),
            )
        }),
{
    let p = |a: confinement::AdjustmentRowView|
        a.adjusted_at >= since && any_row(
            db.confinements,
            |s: confinement::SessionView|
                s.id == a.session_id && s.submissive_id == submissive_id,
        );
    assert(p =~= adjustment_of(db.confinements, submissive_id, since)) by {
        assert forall|a: confinement::AdjustmentRowView| #[trigger]
            own_session(a.session_id, submissive_id) =~= (|s: confinement::SessionView|
                s.id == a.session_id && s.submissive_id == submissive_id) by {}
    }
    let own = db.adjustments.filter(p);
    assert((|a: confinement::AdjustmentRowView|
        if a.delta_seconds > 0 {
            a.delta_seconds as int
        } else {
            0
        }) =~= addition());
    assert((|a: confinement::AdjustmentRowView|
        if a.delta_seconds < 0 {
            -(a.delta_seconds as int)
        } else {
            0
        }) =~= removal());
    lemma_added_up(own, addition());
    lemma_added_up(own, removal());
}

/// The share of a period that was spent locked: the seconds of the submissive's sessions that lie
/// between its start and now, over the seconds between the two, at least one.
pub proof fn law_shares_are_of_the_period(
    db: LedgerView,
    link_id: Seq<char>,
    submissive_id: Seq<char>,
    period: Seq<char>,
    now: i64,
    since: i64,
)
    requires
        share(db, link_id, submissive_id, period, now) is Ok,
        start_of(db, link_id, period, now) == Ok::<i64, DbError>(since),
    ensures
        ({
            let (locked, whole) = share(db, link_id, submissive_id, period, now)->Ok_0;
            &&& since < now ==> whole == now - since
            &&& since >= now ==> whole == 1
            &&& locked == sum_of(
                db.confinements.filter(
                    |s: confinement::SessionView| s.submissive_id == submissive_id,
                ).map_values(
                    |s: confinement::SessionView|
                        {
                            let from: int = if s.started_at > since {
                                s.started_at as int
                            } else {
                                since as int
                            };
                            let to: int = if s.ended_at is Some && s.ended_at->0 < now {
                                s.ended_at->0 as int
                            } else {
                                now as int
                            };
                            if to > from {
                                to - from
                            } else {
                                0
                            }
                        },
                ),
            )
        }),
{
    let p = |s: confinement::SessionView| s.submissive_id == submissive_id;
    assert(p =~= of_submissive(submissive_id));
    let f = |s: confinement::SessionView|
        {
            let from: int = if s.started_at > since {
                s.started_at as int
            } else {
                since as int
            };
            let to: int = if s.ended_at is Some && s.ended_at->0 < now {
                s.ended_at->0 as int
            } else {
                now as int
            };
            if to > from {
                to - from
            } else {
                0
            }
        };
    assert(f =~= overlap(since, now));
    lemma_added_up(db.confinements.filter(p), overlap(since, now));
}

} // verus!
