//! What every operation keeps: the books, and that nobody has two open sessions.
//!
//! The books are the points of each link and the two histories. A balance is the sum of the lines
//! that explain it, and neither the points ledger nor the activity log ever loses a line.

use vstd::prelude::*;

use crate::domain::{
    audit, checkins, invites, links, play_sessions, points, proofs, recurring_tasks, safety, toys,
    users,
};
use crate::domain::chastity::confinement;
use crate::domain::rewards_punishments::assignments;
use crate::domain::verification::codes;
use crate::ledger::LedgerView;
use crate::table::{any_row, find_row, lemma_find_any, updated};

verus! {

/// One history goes on from another: nothing of it is lost or changed.
pub open spec fn extends<V>(before: Seq<V>, after: Seq<V>) -> bool {
    before.len() <= after.len() && after.take(before.len() as int) == before
}

/// The sum of a link's lines.
pub open spec fn total(lines: Seq<points::TransactionView>, link_id: Seq<char>) -> int
    decreases lines.len(),
{
    if lines.len() == 0 {
        0
    } else {
        total(lines.drop_last(), link_id) + (if lines.last().link_id == link_id {
            lines.last().delta as int
        } else {
            0
        })
    }
}

/// Every balance is the sum of its lines.
pub open spec fn in_step(db: LedgerView) -> bool {
    forall|i: int|
        0 <= i < db.links.len() ==> (#[trigger] db.links[i]).points_balance == total(
            db.transactions,
            db.links[i].id,
        )
}

/// The books go on from one state to the next: balances that were explained still are, and both
/// histories have only grown.
pub open spec fn books_kept(before: LedgerView, after: LedgerView) -> bool {
    &&& in_step(before) ==> in_step(after)
    &&& extends(before.transactions, after.transactions)
    &&& extends(before.audit_log, after.audit_log)
}

/// A history goes on from itself, and from one that it goes on from.
proof fn lemma_extends<V>(a: Seq<V>, b: Seq<V>, c: Seq<V>)
    ensures
        extends(a, a),
        extends(a, b) && extends(b, c) ==> extends(a, c),
{
    assert(a.take(a.len() as int) =~= a);
    if extends(a, b) && extends(b, c) {
        assert(c.take(a.len() as int) =~= b.take(a.len() as int));
    }
}

/// Books that are kept step by step are kept.
proof fn lemma_books(a: LedgerView, b: LedgerView, c: LedgerView)
    ensures
        books_kept(a, a),
        books_kept(a, b) && books_kept(b, c) ==> books_kept(a, c),
{
    lemma_extends(a.transactions, b.transactions, c.transactions);
    lemma_extends(a.audit_log, b.audit_log, c.audit_log);
}

/// The books are kept where links and lines stay and the log grows by at most one line.
proof fn lemma_untouched(before: LedgerView, after: LedgerView)
    requires
        after.links == before.links,
        after.transactions == before.transactions,
        after.audit_log == before.audit_log || (after.audit_log.len() == before.audit_log.len() + 1
            && after.audit_log == before.audit_log.push(after.audit_log.last())),
    ensures
        books_kept(before, after),
{
    assert(after.transactions.take(before.transactions.len() as int) =~= before.transactions);
    assert(after.audit_log.take(before.audit_log.len() as int) =~= before.audit_log);
    if in_step(before) {
        assert forall|i: int| 0 <= i < after.links.len() implies (
        #[trigger] after.links[i]).points_balance == total(after.transactions, after.links[i].id) by {
            assert(after.links[i] == before.links[i]);
        }
    }
}

/// One line more moves the sum of its own link by its delta, and no other.
proof fn lemma_total_push(
    lines: Seq<points::TransactionView>,
    t: points::TransactionView,
    link_id: Seq<char>,
)
    ensures
        total(lines.push(t), link_id) == total(lines, link_id) + (if t.link_id == link_id {
            t.delta as int
        } else {
            0
        }),
{
    assert(lines.push(t).drop_last() =~= lines);
}

/// A link without lines sums to nothing.
proof fn lemma_total_none(lines: Seq<points::TransactionView>, link_id: Seq<char>)
    requires
        !any_row(lines, points::of_link(link_id)),
    ensures
        total(lines, link_id) == 0,
    decreases lines.len(),
{
    if lines.len() > 0 {
        let t = lines.drop_last();
        assert forall|i: int| 0 <= i < t.len() implies !points::of_link(link_id)(#[trigger] t[i]) by {
            assert(t[i] == lines[i]);
        }
        lemma_total_none(t, link_id);
        assert(!points::of_link(link_id)(lines[lines.len() - 1]));
    }
}

/// A transaction moves the balance of its link by exactly its delta, and the books are kept.
pub proof fn law_award_keeps_the_books(db: LedgerView, t: points::TransactionView)
    ensures
        points::awarded(db, t) matches Ok(after) ==> {
            &&& books_kept(db, after)
            &&& after.transactions == db.transactions.push(t)
            &&& forall|i: int|
                0 <= i < db.links.len() ==> (#[trigger] after.links[i]).points_balance == (
                if db.links[i].id == t.link_id {
                    find_row(db.links, links::by_id(t.link_id))->0.points_balance + t.delta
                } else {
                    db.links[i].points_balance as int
                })
        },
{
    if let Ok(after) = points::awarded(db, t) {
        let p = links::by_id(t.link_id);
        lemma_find_any(db.links, p);
        assert(after.transactions.take(db.transactions.len() as int) =~= db.transactions);
        assert(after.audit_log.take(db.audit_log.len() as int) =~= db.audit_log);
        if let Some(l) = find_row(db.links, p) {
            let k = choose|k: int| 0 <= k < db.links.len() && db.links[k] == l;
            if in_step(db) {
                assert forall|i: int| 0 <= i < after.links.len() implies (
                #[trigger] after.links[i]).points_balance == total(
                    after.transactions,
                    after.links[i].id,
                ) by {
                    lemma_total_push(db.transactions, t, db.links[i].id);
                    assert(db.links[i].points_balance == total(db.transactions, db.links[i].id));
                    assert(db.links[k].points_balance == total(db.transactions, db.links[k].id));
                }
            }
        } else {
            assert forall|i: int| 0 <= i < db.links.len() implies (
            #[trigger] db.links[i]).id != t.link_id by {
                assert(!p(db.links[i]));
            }
            if in_step(db) {
                assert forall|i: int| 0 <= i < after.links.len() implies (
                #[trigger] after.links[i]).points_balance == total(
                    after.transactions,
                    after.links[i].id,
                ) by {
                    lemma_total_push(db.transactions, t, db.links[i].id);
                    assert(db.links[i].points_balance == total(db.transactions, db.links[i].id));
                }
            }
        }
    }
}

/// Paying out where points are on, and a Keyholder's own adjustment, keep the books.
pub proof fn law_points_keep_the_books(db: LedgerView, t: points::TransactionView)
    ensures
        points::awarded_if_enabled(db, t) matches Ok(after) ==> books_kept(db, after),
        points::adjusted(db, t) matches Ok(after) ==> books_kept(db, after),
{
    law_award_keeps_the_books(db, t);
    lemma_books(db, db, db);
}

/// Creating an assignment touches no points and no history.
proof fn lemma_created(
    db: LedgerView,
    submissive_id: Seq<char>,
    link_id: Seq<char>,
    new: assignments::NewAssignmentView,
    id: Seq<char>,
    adjustment_id: Seq<char>,
    now: i64,
)
    ensures
        assignments::created(db, submissive_id, link_id, new, id, adjustment_id, now) matches Ok(
            (after, a),
        ) ==> {
            &&& after.links == db.links
            &&& after.transactions == db.transactions
            &&& after.audit_log == db.audit_log
            &&& after.assignments == db.assignments.push(a)
            &&& books_kept(db, after)
        },
{
    if let Ok((after, a)) = assignments::created(
        db,
        submissive_id,
        link_id,
        new,
        id,
        adjustment_id,
        now,
    ) {
        lemma_untouched(db, after);
    }
}

/// Following a template up keeps the books.
proof fn lemma_followed_up(
    db: LedgerView,
    from: assignments::AssignmentView,
    template_id: Option<Seq<char>>,
    id: Seq<char>,
    adjustment_id: Seq<char>,
    now: i64,
)
    ensures
        assignments::followed_up(db, from, template_id, id, adjustment_id, now) matches Ok(
            (after, next),
        ) ==> books_kept(db, after),
{
    lemma_books(db, db, db);
    if let Some(t) = template_id {
        if let Some(l) = find_row(db.links, links::by_id(from.link_id)) {
            lemma_created(
                db,
                l.submissive_id,
                from.link_id,
                assignments::escalation_request(from.id, t),
                id,
                adjustment_id,
                now,
            );
        }
    }
}

/// Paying out for an assignment keeps the books.
proof fn lemma_paid_out(
    db: LedgerView,
    link_id: Seq<char>,
    delta: Option<i64>,
    reason: Seq<char>,
    assignment_id: Seq<char>,
    transaction_id: Seq<char>,
    now: i64,
)
    ensures
        assignments::paid_out(db, link_id, delta, reason, assignment_id, transaction_id, now)
            matches Ok(after) ==> books_kept(db, after),
{
    lemma_books(db, db, db);
    if let Some(delta) = delta {
        law_points_keep_the_books(
            db,
            points::earned(
                transaction_id,
                link_id,
                delta,
                reason,
                Some("assignments"@),
                Some(assignment_id),
                None,
                now,
            ),
        );
    }
}

/// Handing an assignment out, by whomever and for whatever reason, keeps the books.
pub proof fn law_creating_keeps_the_books(
    db: LedgerView,
    submissive_id: Seq<char>,
    link_id: Seq<char>,
    new: assignments::NewAssignmentView,
    id: Seq<char>,
    adjustment_id: Seq<char>,
    now: i64,
)
    ensures
        assignments::created(db, submissive_id, link_id, new, id, adjustment_id, now) matches Ok(
            (after, a),
        ) ==> books_kept(db, after),
{
    lemma_created(db, submissive_id, link_id, new, id, adjustment_id, now);
}

/// Resolving an assignment keeps the books.
pub proof fn law_resolving_keeps_the_books(
    db: LedgerView,
    assignment_id: Seq<char>,
    keyholder_id: Seq<char>,
    new_status: Seq<char>,
    ids: assignments::ChainIdsView,
    now: i64,
)
    ensures
        assignments::resolved(db, assignment_id, keyholder_id, new_status, ids, now) matches Ok(
            (after, next),
        ) ==> books_kept(db, after),
{
    if let Ok((after, next)) = assignments::resolved(
        db,
        assignment_id,
        keyholder_id,
        new_status,
        ids,
        now,
    ) {
        let a = assignments::keyholders_own(db, assignment_id, keyholder_id)->0;
        let moved = LedgerView {
            assignments: updated(
                db.assignments,
                assignments::by_id(assignment_id),
                assignments::with_status(new_status, now),
            ),
            ..db
        };
        let completed = new_status == "completed"@;
        let delta = if completed && a.kind == "task"@ {
            a.points_delta
        } else {
            None
        };
        let paid = assignments::paid_out(
            moved,
            a.link_id,
            delta,
            "task_completed"@,
            assignment_id,
            ids.transaction,
            now,
        )->Ok_0;
        lemma_untouched(db, moved);
        lemma_paid_out(
            moved,
            a.link_id,
            delta,
            "task_completed"@,
            assignment_id,
            ids.transaction,
            now,
        );
        lemma_followed_up(
            paid,
            find_row(moved.assignments, assignments::by_id(assignment_id))->0,
            if completed {
                a.on_success_template_id
            } else {
                None
            },
            ids.assignment,
            ids.adjustment,
            now,
        );
        lemma_books(db, moved, paid);
        lemma_books(db, paid, after);
    }
}

/// Reviewing a proof keeps the books.
pub proof fn law_reviewing_keeps_the_books(
    db: LedgerView,
    submission_id: Seq<char>,
    link_id: Seq<char>,
    status: Seq<char>,
    notes: Option<Seq<char>>,
    by: Seq<char>,
    via: Seq<char>,
    ids: assignments::ChainIdsView,
    now: i64,
)
    ensures
        assignments::proof_reviewed(db, submission_id, link_id, status, notes, by, via, ids, now)
            matches Ok((after, outcome)) ==> books_kept(db, after),
{
    if let Ok((after, outcome)) = assignments::proof_reviewed(
        db,
        submission_id,
        link_id,
        status,
        notes,
        by,
        via,
        ids,
        now,
    ) {
        let seen = proofs::reviewed(
            db,
            submission_id,
            link_id,
            status,
            notes,
            by,
            via,
            now,
        )->Ok_0;
        lemma_untouched(db, seen);
        let success = status == "verified"@;
        if assignments::proved_assignment(seen, submission_id) is Some && (success || status
            == "failed"@) {
            let a = assignments::proved_assignment(seen, submission_id)->0;
            let verdict = if success {
                "completed"@
            } else {
                "failed"@
            };
            let moved = LedgerView {
                assignments: updated(
                    seen.assignments,
                    assignments::by_id(a.id),
                    assignments::with_status(verdict, now),
                ),
                ..seen
            };
            let logged = if success {
                moved
            } else {
                audit::logged(
                    moved,
                    ids.log_line,
                    assignments::failure_entry(a.id, link_id, by),
                    now,
                )
            };
            let reason = if success {
                "task_completed"@
            } else {
                "task_failed"@
            };
            let paid = assignments::paid_out(
                logged,
                link_id,
                a.points_delta,
                reason,
                a.id,
                ids.transaction,
                now,
            )->Ok_0;
            lemma_untouched(seen, moved);
            lemma_untouched(moved, logged);
            lemma_paid_out(logged, link_id, a.points_delta, reason, a.id, ids.transaction, now);
            lemma_followed_up(
                paid,
                assignments::AssignmentView { status: verdict, status_updated_at: now, ..a },
                if success {
                    a.on_success_template_id
                } else {
                    a.on_failure_template_id
                },
                ids.assignment,
                ids.adjustment,
                now,
            );
            lemma_books(db, seen, moved);
            lemma_books(db, moved, logged);
            lemma_books(db, logged, paid);
            lemma_books(db, paid, after);
        }
    }
}

/// Failing a task on its deadline keeps the books.
pub proof fn law_auto_failing_keeps_the_books(
    db: LedgerView,
    id: Seq<char>,
    ids: assignments::ChainIdsView,
    now: i64,
)
    ensures
        assignments::auto_failed(db, id, ids, now) matches Ok((after, told)) ==> books_kept(
            db,
            after,
        ),
{
    lemma_books(db, db, db);
    if any_row(db.assignments, assignments::still_assigned(id)) {
        let moved = LedgerView {
            assignments: updated(
                db.assignments,
                assignments::still_assigned(id),
                assignments::with_status("failed"@, now),
            ),
            ..db
        };
        let logged = audit::logged(
            moved,
            ids.log_line,
            assignments::auto_failure_entry(id),
            now,
        );
        lemma_untouched(db, moved);
        lemma_untouched(moved, logged);
        lemma_books(db, moved, logged);
        if let Some(a) = find_row(logged.assignments, assignments::by_id(id)) {
            lemma_paid_out(
                logged,
                a.link_id,
                a.points_delta,
                "task_failed"@,
                id,
                ids.transaction,
                now,
            );
            if let Ok(paid) = assignments::paid_out(
                logged,
                a.link_id,
                a.points_delta,
                "task_failed"@,
                id,
                ids.transaction,
                now,
            ) {
                lemma_books(db, logged, paid);
                lemma_followed_up(
                    paid,
                    a,
                    a.on_failure_template_id,
                    ids.assignment,
                    ids.adjustment,
                    now,
                );
                if let Ok((after, next)) = assignments::followed_up(
                    paid,
                    a,
                    a.on_failure_template_id,
                    ids.assignment,
                    ids.adjustment,
                    now,
                ) {
                    lemma_books(db, paid, after);
                }
            }
        }
    }
}

/// A deadline sweep keeps the books, as far as it comes.
pub proof fn law_sweep_keeps_the_books(
    db: LedgerView,
    tasks: Seq<Seq<char>>,
    ids: Seq<assignments::ChainIdsView>,
    n: nat,
    now: i64,
)
    ensures
        books_kept(db, assignments::swept(db, tasks, ids, n, now).db),
    decreases n,
{
    lemma_books(db, db, db);
    if n > 0 {
        law_sweep_keeps_the_books(db, tasks, ids, (n - 1) as nat, now);
        let before = assignments::swept(db, tasks, ids, (n - 1) as nat, now);
        law_auto_failing_keeps_the_books(before.db, tasks[n - 1], ids[n - 1], now);
        if let Ok((after, told)) = assignments::auto_failed(
            before.db,
            tasks[n - 1],
            ids[n - 1],
            now,
        ) {
            lemma_books(db, before.db, after);
        }
    }
}

/// Deciding a redemption keeps the books: an approval deducts its price by a line, a denial moves
/// nothing.
pub proof fn law_redeeming_keeps_the_books(
    db: LedgerView,
    request_id: Seq<char>,
    keyholder_id: Seq<char>,
    approve: bool,
    ids: assignments::ChainIdsView,
    now: i64,
)
    ensures
        points::redemption_decided(db, request_id, keyholder_id, approve, ids, now) matches Ok(
            (after, a),
        ) ==> {
            &&& books_kept(db, after)
            &&& !approve ==> after.links == db.links && after.transactions == db.transactions
                && after.assignments == db.assignments && a is None
            &&& approve ==> after.transactions.len() == db.transactions.len() + 1
                && after.transactions.last().delta == -points::pending_request(
                db,
                request_id,
                keyholder_id,
            )->Ok_0.points_cost
        },
{
    if let Ok((after, a)) = points::redemption_decided(
        db,
        request_id,
        keyholder_id,
        approve,
        ids,
        now,
    ) {
        let q = points::pending_request(db, request_id, keyholder_id)->Ok_0;
        if !approve {
            lemma_untouched(db, after);
        } else {
            let l = find_row(db.links, links::by_id(q.link_id))->0;
            let request = points::redemption_request(q.template_id, keyholder_id);
            lemma_created(
                db,
                l.submissive_id,
                q.link_id,
                request,
                ids.assignment,
                ids.adjustment,
                now,
            );
            let handed = assignments::created(
                db,
                l.submissive_id,
                q.link_id,
                request,
                ids.assignment,
                ids.adjustment,
                now,
            )->Ok_0.0;
            let t = points::earned(
                ids.transaction,
                q.link_id,
                (-q.points_cost) as i64,
                "redemption"@,
                Some("reward_redemption_requests"@),
                Some(request_id),
                None,
                now,
            );
            law_award_keeps_the_books(handed, t);
            let paid = points::awarded(handed, t)->Ok_0;
            lemma_untouched(paid, after);
            lemma_books(db, handed, paid);
            lemma_books(db, paid, after);
        }
    }
}

/// A new link starts with nothing, as no line speaks of it yet, and ending a link keeps its
/// balance.
pub proof fn law_links_keep_the_books(
    db: LedgerView,
    link_id: Seq<char>,
    policy_id: Seq<char>,
    keyholder_id: Seq<char>,
    submissive_id: Seq<char>,
    now: i64,
)
    requires
        !any_row(db.transactions, points::of_link(link_id)),
    ensures
        books_kept(
            db,
            links::linked(db, link_id, policy_id, keyholder_id, submissive_id, now),
        ),
        books_kept(
            db,
            LedgerView {
                links: updated(db.links, links::running_by_id(link_id), links::ended(now)),
                ..db
            },
        ),
{
    let after = links::linked(db, link_id, policy_id, keyholder_id, submissive_id, now);
    lemma_total_none(db.transactions, link_id);
    lemma_books(db, db, db);
    assert(in_step(db) ==> in_step(after)) by {
        if in_step(db) {
            assert forall|i: int| 0 <= i < after.links.len() implies (
            #[trigger] after.links[i]).points_balance == total(
                after.transactions,
                after.links[i].id,
            ) by {
                if i < db.links.len() {
                    assert(after.links[i] == db.links[i]);
                }
            }
        }
    }
    let over = LedgerView {
        links: updated(db.links, links::running_by_id(link_id), links::ended(now)),
        ..db
    };
    assert(in_step(db) ==> in_step(over)) by {
        if in_step(db) {
            assert forall|i: int| 0 <= i < over.links.len() implies (
            #[trigger] over.links[i]).points_balance == total(
                over.transactions,
                over.links[i].id,
            ) by {
                assert(db.links[i].points_balance == total(db.transactions, db.links[i].id));
            }
        }
    }
}

/// Redeeming an invite keeps the books.
pub proof fn law_joining_keeps_the_books(
    db: LedgerView,
    with: invites::RedeemView,
    ids: invites::RedeemIdsView,
    now: i64,
)
    requires
        !any_row(db.transactions, points::of_link(ids.link)),
    ensures
        invites::redeemed(db, with, ids, now) matches Ok(after) ==> books_kept(db, after),
{
    if let Ok(after) = invites::redeemed(db, with, ids, now) {
        let invite = find_row(db.invites, invites::redeemable(with.token_hash, now))->0;
        let joined = users::submissive_created(
            db,
            ids.user,
            users::NewAccountView {
                email: with.email,
                password_hash: with.password_hash,
                display_name: with.display_name,
            },
            now,
        )->Ok_0;
        let linked = links::linked(
            joined,
            ids.link,
            ids.policy,
            invite.created_by_keyholder_id,
            ids.user,
            now,
        );
        lemma_untouched(db, joined);
        law_links_keep_the_books(
            joined,
            ids.link,
            ids.policy,
            invite.created_by_keyholder_id,
            ids.user,
            now,
        );
        lemma_untouched(linked, after);
        lemma_books(db, joined, linked);
        lemma_books(db, linked, after);
    }
}

/// Alerts, toys, check-ins and codes keep the books.
pub proof fn law_the_rest_keeps_the_books(
    db: LedgerView,
    id: Seq<char>,
    log_line_id: Seq<char>,
    alert: safety::RaiseView,
    by: Seq<char>,
    new: checkins::NewCheckinView,
    edit: checkins::CheckinEditView,
    checkin_ids: checkins::CheckinIdsView,
    link_ids: Seq<Seq<char>>,
    fresh: Seq<(Seq<char>, Seq<char>)>,
    n: nat,
    now: i64,
)
    requires
        n <= link_ids.len(),
    ensures
        books_kept(db, safety::raised(db, id, log_line_id, alert, now)),
        books_kept(db, toys::toy_retired(db, id, by, log_line_id, now)),
        toys::removal_declined(db, id, by, log_line_id, now) matches Ok(after) ==> books_kept(
            db,
            after,
        ),
        checkins::checkin_created(db, new, by, checkin_ids, now) matches Ok((after, alert))
            ==> books_kept(db, after),
        checkins::checkin_edited(db, id, edit, by, by, checkin_ids, now) matches Ok((after, alert))
            ==> books_kept(db, after),
        books_kept(db, codes::ticked(db, link_ids, fresh, n, now).db),
{
    lemma_untouched(db, safety::raised(db, id, log_line_id, alert, now));
    lemma_untouched(db, toys::toy_retired(db, id, by, log_line_id, now));
    if let Ok(after) = toys::removal_declined(db, id, by, log_line_id, now) {
        lemma_untouched(db, after);
    }
    if let Ok((after, alert)) = checkins::checkin_created(db, new, by, checkin_ids, now) {
        lemma_untouched(db, after);
    }
    if let Ok((after, alert)) = checkins::checkin_edited(db, id, edit, by, by, checkin_ids, now) {
        lemma_untouched(db, after);
    }
    codes::law_tick_only_issues(db, link_ids, fresh, n, now);
    lemma_untouched(db, codes::ticked(db, link_ids, fresh, n, now).db);
}

/// Judging a play session keeps the books.
pub proof fn law_judging_keeps_the_books(
    db: LedgerView,
    id: Seq<char>,
    submissive_id: Seq<char>,
    keyholder_id: Seq<char>,
    j: play_sessions::JudgementView,
    ids: play_sessions::JudgementIdsView,
    now: i64,
)
    ensures
        play_sessions::session_judged(db, id, submissive_id, keyholder_id, j, ids, now) matches Ok(
            (after, s),
        ) ==> books_kept(db, after),
{
    if let Ok((after, judged)) = play_sessions::session_judged(
        db,
        id,
        submissive_id,
        keyholder_id,
        j,
        ids,
        now,
    ) {
        let s = find_row(db.play_sessions, play_sessions::by_id(id))->0;
        lemma_books(db, db, db);
        let rewarded = play_sessions::consequence_handed_out(
            db,
            "reward"@,
            j.reward,
            s.reward_assignment_id,
            s,
            submissive_id,
            keyholder_id,
            ids.reward,
            ids.reward_adjustment,
            now,
        )->Ok_0.0;
        if let Some(c) = j.reward {
            lemma_created(
                db,
                submissive_id,
                s.link_id,
                play_sessions::consequence_request("reward"@, c, s.id, keyholder_id),
                ids.reward,
                ids.reward_adjustment,
                now,
            );
        }
        let punished = play_sessions::consequence_handed_out(
            rewarded,
            "punishment"@,
            j.punishment,
            s.punishment_assignment_id,
            s,
            submissive_id,
            keyholder_id,
            ids.punishment,
            ids.punishment_adjustment,
            now,
        )->Ok_0.0;
        lemma_books(rewarded, rewarded, rewarded);
        if let Some(c) = j.punishment {
            lemma_created(
                rewarded,
                submissive_id,
                s.link_id,
                play_sessions::consequence_request("punishment"@, c, s.id, keyholder_id),
                ids.punishment,
                ids.punishment_adjustment,
                now,
            );
        }
        lemma_untouched(punished, after);
        lemma_books(db, rewarded, punished);
        lemma_books(db, punished, after);
    }
}

/// A sweep of recurring rules keeps the books.
pub proof fn law_spawning_keeps_the_books(
    db: LedgerView,
    rules: Seq<recurring_tasks::RuleView>,
    ids: Seq<(Seq<char>, Seq<char>)>,
    n: nat,
    now: i64,
)
    ensures
        books_kept(db, recurring_tasks::swept(db, rules, ids, n, now).0),
    decreases n,
{
    lemma_books(db, db, db);
    if n > 0 {
        law_spawning_keeps_the_books(db, rules, ids, (n - 1) as nat, now);
        let before = recurring_tasks::swept(db, rules, ids, (n - 1) as nat, now).0;
        let after = recurring_tasks::swept(db, rules, ids, n, now).0;
        let rule = rules[n - 1];
        if let Some(l) = find_row(before.links, links::by_id(rule.link_id)) {
            lemma_created(
                before,
                l.submissive_id,
                rule.link_id,
                recurring_tasks::spawn_of(rule),
                ids[n - 1].0,
                ids[n - 1].1,
                now,
            );
            if let Ok((made, a)) = assignments::created(
                before,
                l.submissive_id,
                rule.link_id,
                recurring_tasks::spawn_of(rule),
                ids[n - 1].0,
                ids[n - 1].1,
                now,
            ) {
                if after.recurring_rules != before.recurring_rules || after.assignments
                    != before.assignments {
                    lemma_untouched(made, after);
                    lemma_books(before, made, after);
                }
            }
        }
        lemma_books(before, before, before);
        lemma_books(db, before, after);
    }
}

/// No submissive has two open sessions.
pub open spec fn one_open_each(sessions: Seq<confinement::SessionView>) -> bool {
    forall|i: int, j: int|
        0 <= i < j < sessions.len() && (#[trigger] sessions[i]).ended_at is None && (
        #[trigger] sessions[j]).ended_at is None ==> sessions[i].submissive_id
            != sessions[j].submissive_id
}

/// A rewriting that neither reopens a session nor gives it to another submissive keeps open
/// sessions apart.
proof fn lemma_stay_apart(
    sessions: Seq<confinement::SessionView>,
    p: spec_fn(confinement::SessionView) -> bool,
    u: spec_fn(confinement::SessionView) -> confinement::SessionView,
)
    requires
        one_open_each(sessions),
        forall|s: confinement::SessionView| #[trigger]
            p(s) ==> u(s).submissive_id == s.submissive_id && (s.ended_at is Some
                ==> u(s).ended_at is Some),
    ensures
        one_open_each(updated(sessions, p, u)),
{
}

/// Whatever is done to sessions, no submissive ever has two that are open: starting one is refused
/// where one is open, and nothing else opens one.
pub proof fn law_one_open_session_each(
    db: LedgerView,
    id: Seq<char>,
    new: confinement::StartSessionView,
    submissive_id: Seq<char>,
    by: Seq<char>,
    text: Option<Seq<char>>,
    reason: Seq<char>,
    effect: confinement::ApplyEffectView,
    delta: i64,
    now: i64,
)
    requires
        one_open_each(db.confinements),
    ensures
        !any_row(db.confinements, confinement::open_session(new.submissive_id)) ==> one_open_each(
            db.confinements.push(confinement::new_session(id, new, now)),
        ),
        one_open_each(
            updated(
                db.confinements,
                confinement::open_session(submissive_id),
                confinement::ended(reason, by, text, now),
            ),
        ),
        one_open_each(
            updated(
                db.confinements,
                confinement::ticking(submissive_id),
                confinement::paused_with(text, now),
            ),
        ),
        one_open_each(
            updated(
                db.confinements,
                confinement::paused(submissive_id),
                confinement::with_message(text),
            ),
        ),
        confinement::resumed(db, submissive_id, by, id, now) matches Ok(after) ==> one_open_each(
            after.confinements,
        ),
        confinement::effect_applied(db, id, effect, now) matches Ok((after, outcome))
            ==> one_open_each(after.confinements),
        confinement::timer_adjusted(db, submissive_id, delta, by, text, id, now) matches Ok(after)
            ==> one_open_each(after.confinements),
{
    let s = db.confinements;
    if !any_row(s, confinement::open_session(new.submissive_id)) {
        let after = s.push(confinement::new_session(id, new, now));
        assert forall|i: int, j: int|
            0 <= i < j < after.len() && (#[trigger] after[i]).ended_at is None && (
            #[trigger] after[j]).ended_at is None implies after[i].submissive_id
            != after[j].submissive_id by {
            assert(!confinement::open_session(new.submissive_id)(s[i]));
        }
    }
    lemma_stay_apart(
        s,
        confinement::open_session(submissive_id),
        confinement::ended(reason, by, text, now),
    );
    lemma_stay_apart(
        s,
        confinement::ticking(submissive_id),
        confinement::paused_with(text, now),
    );
    lemma_stay_apart(s, confinement::paused(submissive_id), confinement::with_message(text));
    if let Some(p) = find_row(s, confinement::paused(submissive_id)) {
        let elapsed = (now - p.clock_paused_at->0) as i64;
        lemma_stay_apart(s, confinement::by_id(p.id), confinement::resumed_to(None));
        if let Some(target) = p.target_release_at {
            lemma_stay_apart(
                s,
                confinement::by_id(p.id),
                confinement::resumed_to(Some((target + elapsed) as i64)),
            );
        }
    }
    if let Some(o) = find_row(s, confinement::open_session(effect.submissive_id)) {
        lemma_stay_apart(
            s,
            confinement::by_id(o.id),
            confinement::with_target(
                confinement::moved_target(o, effect.delta_seconds, now) as i64,
            ),
        );
    }
    if let Some(o) = find_row(s, confinement::open_session(submissive_id)) {
        lemma_stay_apart(
            s,
            confinement::by_id(o.id),
            confinement::with_target(confinement::moved_target(o, delta, now) as i64),
        );
    }
}

} // verus!
