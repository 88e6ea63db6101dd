//! Verification policies: when a link's codes are issued, and how long they live.

use vstd::prelude::*;

use crate::ledger::{Ledger, LedgerView};
use crate::table::{
    find, find_row, lemma_find_any, lemma_find_only, lemma_find_updated, only, update, updated, Row,
};
use crate::text::{own, same};

verus! {

/// A link's verification policy.
#[derive(Debug, PartialEq, Eq)]
pub struct Policy {
    pub link_id: String,
    pub frequency_kind: String,
    pub frequency_value: String,
    pub code_ttl_seconds: i64,
    pub grace_period_seconds: i64,
    pub updated_at: i64,
}

/// What a `Policy` holds.
#[verifier::ext_equal]
pub struct PolicyView {
    pub link_id: Seq<char>,
    pub frequency_kind: Seq<char>,
    pub frequency_value: Seq<char>,
    pub code_ttl_seconds: i64,
    pub grace_period_seconds: i64,
    pub updated_at: i64,
}

impl View for Policy {
    type V = PolicyView;

    open spec fn view(&self) -> PolicyView {
        PolicyView {
            link_id: self.link_id@,
            frequency_kind: self.frequency_kind@,
            frequency_value: self.frequency_value@,
            code_ttl_seconds: self.code_ttl_seconds,
            grace_period_seconds: self.grace_period_seconds,
            updated_at: self.updated_at,
        }
    }
}

impl DeepView for Policy {
    type V = PolicyView;

    open spec fn deep_view(&self) -> PolicyView {
        self.view()
    }
}

impl Row for Policy {
    fn dup(&self) -> (r: Self) {
        Policy {
            link_id: self.link_id.clone(),
            frequency_kind: self.frequency_kind.clone(),
            frequency_value: self.frequency_value.clone(),
            code_ttl_seconds: self.code_ttl_seconds,
            grace_period_seconds: self.grace_period_seconds,
            updated_at: self.updated_at,
        }
    }
}

/// A stored policy.
#[derive(Debug, PartialEq, Eq)]
pub struct PolicyRow {
    pub id: String,
    pub created_at: i64,
    pub policy: Policy,
}

/// What a `PolicyRow` holds.
#[verifier::ext_equal]
pub struct PolicyRowView {
    pub id: Seq<char>,
    pub created_at: i64,
    pub policy: PolicyView,
}

impl View for PolicyRow {
    type V = PolicyRowView;

    open spec fn view(&self) -> PolicyRowView {
        PolicyRowView {
            id: self.id@,
            created_at: self.created_at,
            policy: self.policy@,
        }
    }
}

impl DeepView for PolicyRow {
    type V = PolicyRowView;

    open spec fn deep_view(&self) -> PolicyRowView {
        self.view()
    }
}

impl Row for PolicyRow {
    fn dup(&self) -> (r: Self) {
        PolicyRow {
            id: self.id.clone(),
            created_at: self.created_at,
            policy: self.policy.dup(),
        }
    }
}

/// The new terms of a policy.
#[derive(Debug, PartialEq, Eq)]
pub struct SetPolicy<'a> {
    pub frequency_kind: &'a str,
    pub frequency_value: &'a str,
    pub code_ttl_seconds: i64,
    pub grace_period_seconds: i64,
}

/// What a `SetPolicy` holds.
#[verifier::ext_equal]
pub struct SetPolicyView {
    pub frequency_kind: Seq<char>,
    pub frequency_value: Seq<char>,
    pub code_ttl_seconds: i64,
    pub grace_period_seconds: i64,
}

impl<'a> View for SetPolicy<'a> {
    type V = SetPolicyView;

    open spec fn view(&self) -> SetPolicyView {
        SetPolicyView {
            frequency_kind: self.frequency_kind@,
            frequency_value: self.frequency_value@,
            code_ttl_seconds: self.code_ttl_seconds,
            grace_period_seconds: self.grace_period_seconds,
        }
    }
}

/// This link's policy.
pub open spec fn for_link(link_id: Seq<char>) -> spec_fn(PolicyRowView) -> bool {
    |p: PolicyRowView| p.policy.link_id == link_id
}

/// A link's policy.
pub fn get_for_link(db: &Ledger, link_id: &str) -> (r: Option<Policy>)
    ensures
        r.deep_view() == (match find_row(db@.policies, for_link(link_id@)) {
            Some(row) => Some(row.policy),
            None => None,
        }),
{
    let ghost p = for_link(link_id@);
    let test = |row: &PolicyRow| -> (b: bool)
        ensures
            b == p(row@),
        { same(row.policy.link_id.as_str(), link_id) };
    match find(&db.policies, Ghost(p), test) {
        Some(row) => Some(row.policy.dup()),
        None => None,
    }
}

/// On these terms.
pub open spec fn on_terms(terms: SetPolicyView, now: i64) -> spec_fn(PolicyRowView) -> PolicyRowView {
    |row: PolicyRowView|
        PolicyRowView {
            policy: PolicyView {
                link_id: row.policy.link_id,
                frequency_kind: terms.frequency_kind,
                frequency_value: terms.frequency_value,
                code_ttl_seconds: terms.code_ttl_seconds,
                grace_period_seconds: terms.grace_period_seconds,
                updated_at: now,
            },
            ..row
        }
}

/// Replaces the terms of a link's policy.
pub fn set_for_link(db: &mut Ledger, link_id: &str, policy: SetPolicy, now: i64)
    ensures
        final(db)@ == (LedgerView {
            policies: updated(old(db)@.policies, for_link(link_id@), on_terms(policy@, now)),
            ..old(db)@
        }),
{
    let ghost p = for_link(link_id@);
    let ghost u = on_terms(policy@, now);
    let change = |row: &PolicyRow| -> (n: Option<PolicyRow>)
        ensures
            match n {
                Some(x) => p(row@) && x@ == u(row@),
                None => !p(row@),
            },
        {
            if same(row.policy.link_id.as_str(), link_id) {
                let mut n = row.dup();
                n.policy.frequency_kind = own(policy.frequency_kind);
                n.policy.frequency_value = own(policy.frequency_value);
                n.policy.code_ttl_seconds = policy.code_ttl_seconds;
                n.policy.grace_period_seconds = policy.grace_period_seconds;
                n.policy.updated_at = now;

                Some(n)
            } else {
                None
            }
        };
    update(&mut db.policies, Ghost(p), Ghost(u), change);
}

/// A policy that was set is the policy that is read, on a link that has one.
pub proof fn law_set_policy_is_read(
    policies: Seq<PolicyRowView>,
    link_id: Seq<char>,
    terms: SetPolicyView,
    now: i64,
)
    requires
        find_row(policies, for_link(link_id)) is Some,
    ensures
        ({
            let after = find_row(
                updated(policies, for_link(link_id), on_terms(terms, now)),
                for_link(link_id),
            );
            &&& after is Some
            &&& after->0.policy == PolicyView {
                link_id,
                frequency_kind: terms.frequency_kind,
                frequency_value: terms.frequency_value,
                code_ttl_seconds: terms.code_ttl_seconds,
                grace_period_seconds: terms.grace_period_seconds,
                updated_at: now,
            }
        }),
{
    lemma_find_any(policies, for_link(link_id));
    lemma_find_updated(policies, for_link(link_id), for_link(link_id), on_terms(terms, now));
}

/// Setting one link's policy changes no other link's.
pub proof fn law_policies_are_apart(
    policies: Seq<PolicyRowView>,
    link_id: Seq<char>,
    other: Seq<char>,
    terms: SetPolicyView,
    now: i64,
)
    requires
        link_id != other,
    ensures
        find_row(updated(policies, for_link(link_id), on_terms(terms, now)), for_link(other))
            == find_row(policies, for_link(other)),
{
    lemma_find_any(policies, for_link(other));
    lemma_find_updated(policies, for_link(other), for_link(link_id), on_terms(terms, now));
}

/// A policy that is set holds the terms it was set to, from now, for its link, and is what the link
/// then has; no other policy changes.
pub proof fn law_a_policy_is_set_as_said(
    policies: Seq<PolicyRowView>,
    link_id: Seq<char>,
    terms: SetPolicyView,
    now: i64,
    k: int,
)
    requires
        only(policies, k, |p: PolicyRowView| p.policy.link_id == link_id),
    ensures
        find_row(policies, for_link(link_id)) == Some(policies[k]),
        ({
            let after = updated(policies, for_link(link_id), on_terms(terms, now));
            let p = after[k].policy;
            &&& after == policies.update(k, PolicyRowView { policy: p, ..policies[k] })
            &&& p.link_id == link_id && p.updated_at == now
            &&& p.frequency_kind == terms.frequency_kind
            &&& p.frequency_value == terms.frequency_value
            &&& p.code_ttl_seconds == terms.code_ttl_seconds
            &&& p.grace_period_seconds == terms.grace_period_seconds
        }),
{
    let mine = |p: PolicyRowView| p.policy.link_id == link_id;
    lemma_find_only(policies, k, mine, for_link(link_id));
    assert forall|j: int| 0 <= j < policies.len() && j != k implies (
    #[trigger] policies[j]).policy.link_id != link_id by {
        assert(!mine(policies[j]));
    }
}

} // verus!
