//! The ledger: every table of the application, as plain rows.

use vstd::prelude::*;

use crate::domain::{
    api_tokens, audit, checkins, invites, limits, links, notifications, password_reset,
    play_sessions, points, profiles, proofs, push, recurring_tasks, safety, toys, two_factor, users,
};
use crate::domain::chastity::{confinement, devices};
use crate::domain::rewards_punishments::{assignments, templates};
use crate::domain::verification::{codes, policy};
use crate::table::{dup_rows, rows};

verus! {

/// Every table; rows stand in the order in which they were added.
#[derive(Debug, PartialEq, Eq)]
pub struct Ledger {
    pub users: Vec<users::User>,
    pub sessions: Vec<users::LoginSession>,
    pub keyholder_profiles: Vec<profiles::KeyholderProfileRow>,
    pub submissive_profiles: Vec<profiles::SubmissiveProfileRow>,
    pub links: Vec<links::Link>,
    pub policies: Vec<policy::PolicyRow>,
    pub codes: Vec<codes::Code>,
    pub devices: Vec<devices::DeviceRow>,
    pub confinements: Vec<confinement::Session>,
    pub adjustments: Vec<confinement::AdjustmentRow>,
    pub templates: Vec<templates::Template>,
    pub assignments: Vec<assignments::Assignment>,
    pub transactions: Vec<points::Transaction>,
    pub redemptions: Vec<points::RedemptionRequest>,
    pub audit_log: Vec<audit::AuditRow>,
    pub submissions: Vec<proofs::Submission>,
    pub attachments: Vec<proofs::AttachmentRow>,
    pub alerts: Vec<safety::Alert>,
    pub notifications: Vec<notifications::Notification>,
    pub vapid_keys: Vec<push::VapidKeys>,
    pub subscriptions: Vec<push::Subscription>,
    pub checkin_templates: Vec<checkins::Template>,
    pub checkin_fields: Vec<checkins::FieldRow>,
    pub checkins: Vec<checkins::Checkin>,
    pub play_templates: Vec<play_sessions::Template>,
    pub play_sessions: Vec<play_sessions::PlaySession>,
    pub play_session_toys: Vec<play_sessions::SessionToy>,
    pub play_schedule: Vec<play_sessions::ScheduleSlot>,
    pub toys: Vec<toys::Toy>,
    pub limit_items: Vec<limits::LimitItem>,
    pub submissive_ratings: Vec<limits::Rating>,
    pub keyholder_ratings: Vec<limits::KeyholderRating>,
    pub recurring_rules: Vec<recurring_tasks::Rule>,
    pub api_tokens: Vec<api_tokens::ApiToken>,
    pub invites: Vec<invites::Invite>,
    pub reset_tokens: Vec<password_reset::ResetToken>,
    pub credentials: Vec<two_factor::Credential>,
    pub recovery_codes: Vec<two_factor::RecoveryCode>,
    pub challenges: Vec<two_factor::Challenge>,
}

/// What a `Ledger` holds.
#[verifier::ext_equal]
pub struct LedgerView {
    pub users: Seq<users::UserView>,
    pub sessions: Seq<users::LoginSessionView>,
    pub keyholder_profiles: Seq<profiles::KeyholderProfileRowView>,
    pub submissive_profiles: Seq<profiles::SubmissiveProfileRowView>,
    pub links: Seq<links::LinkView>,
    pub policies: Seq<policy::PolicyRowView>,
    pub codes: Seq<codes::CodeView>,
    pub devices: Seq<devices::DeviceRowView>,
    pub confinements: Seq<confinement::SessionView>,
    pub adjustments: Seq<confinement::AdjustmentRowView>,
    pub templates: Seq<templates::TemplateView>,
    pub assignments: Seq<assignments::AssignmentView>,
    pub transactions: Seq<points::TransactionView>,
    pub redemptions: Seq<points::RedemptionRequestView>,
    pub audit_log: Seq<audit::AuditRowView>,
    pub submissions: Seq<proofs::SubmissionView>,
    pub attachments: Seq<proofs::AttachmentRowView>,
    pub alerts: Seq<safety::AlertView>,
    pub notifications: Seq<notifications::NotificationView>,
    pub vapid_keys: Seq<push::VapidKeysView>,
    pub subscriptions: Seq<push::SubscriptionView>,
    pub checkin_templates: Seq<checkins::TemplateView>,
    pub checkin_fields: Seq<checkins::FieldRowView>,
    pub checkins: Seq<checkins::CheckinView>,
    pub play_templates: Seq<play_sessions::TemplateView>,
    pub play_sessions: Seq<play_sessions::PlaySessionView>,
    pub play_session_toys: Seq<play_sessions::SessionToyView>,
    pub play_schedule: Seq<play_sessions::ScheduleSlotView>,
    pub toys: Seq<toys::ToyView>,
    pub limit_items: Seq<limits::LimitItemView>,
    pub submissive_ratings: Seq<limits::RatingView>,
    pub keyholder_ratings: Seq<limits::KeyholderRatingView>,
    pub recurring_rules: Seq<recurring_tasks::RuleView>,
    pub api_tokens: Seq<api_tokens::ApiTokenView>,
    pub invites: Seq<invites::InviteView>,
    pub reset_tokens: Seq<password_reset::ResetTokenView>,
    pub credentials: Seq<two_factor::CredentialView>,
    pub recovery_codes: Seq<two_factor::RecoveryCodeView>,
    pub challenges: Seq<two_factor::ChallengeView>,
}

impl View for Ledger {
    type V = LedgerView;

    open spec fn view(&self) -> LedgerView {
        LedgerView {
            users: rows(self.users@),
            sessions: rows(self.sessions@),
            keyholder_profiles: rows(self.keyholder_profiles@),
            submissive_profiles: rows(self.submissive_profiles@),
            links: rows(self.links@),
            policies: rows(self.policies@),
            codes: rows(self.codes@),
            devices: rows(self.devices@),
            confinements: rows(self.confinements@),
            adjustments: rows(self.adjustments@),
            templates: rows(self.templates@),
            assignments: rows(self.assignments@),
            transactions: rows(self.transactions@),
            redemptions: rows(self.redemptions@),
            audit_log: rows(self.audit_log@),
            submissions: rows(self.submissions@),
            attachments: rows(self.attachments@),
            alerts: rows(self.alerts@),
            notifications: rows(self.notifications@),
            vapid_keys: rows(self.vapid_keys@),
            subscriptions: rows(self.subscriptions@),
            checkin_templates: rows(self.checkin_templates@),
            checkin_fields: rows(self.checkin_fields@),
            checkins: rows(self.checkins@),
            play_templates: rows(self.play_templates@),
            play_sessions: rows(self.play_sessions@),
            play_session_toys: rows(self.play_session_toys@),
            play_schedule: rows(self.play_schedule@),
            toys: rows(self.toys@),
            limit_items: rows(self.limit_items@),
            submissive_ratings: rows(self.submissive_ratings@),
            keyholder_ratings: rows(self.keyholder_ratings@),
            recurring_rules: rows(self.recurring_rules@),
            api_tokens: rows(self.api_tokens@),
            invites: rows(self.invites@),
            reset_tokens: rows(self.reset_tokens@),
            credentials: rows(self.credentials@),
            recovery_codes: rows(self.recovery_codes@),
            challenges: rows(self.challenges@),
        }
    }
}

impl LedgerView {
    /// No rows at all.
    pub open spec fn empty() -> LedgerView {
        LedgerView {
            users: Seq::empty(),
            sessions: Seq::empty(),
            keyholder_profiles: Seq::empty(),
            submissive_profiles: Seq::empty(),
            links: Seq::empty(),
            policies: Seq::empty(),
            codes: Seq::empty(),
            devices: Seq::empty(),
            confinements: Seq::empty(),
            adjustments: Seq::empty(),
            templates: Seq::empty(),
            assignments: Seq::empty(),
            transactions: Seq::empty(),
            redemptions: Seq::empty(),
            audit_log: Seq::empty(),
            submissions: Seq::empty(),
            attachments: Seq::empty(),
            alerts: Seq::empty(),
            notifications: Seq::empty(),
            vapid_keys: Seq::empty(),
            subscriptions: Seq::empty(),
            checkin_templates: Seq::empty(),
            checkin_fields: Seq::empty(),
            checkins: Seq::empty(),
            play_templates: Seq::empty(),
            play_sessions: Seq::empty(),
            play_session_toys: Seq::empty(),
            play_schedule: Seq::empty(),
            toys: Seq::empty(),
            limit_items: Seq::empty(),
            submissive_ratings: Seq::empty(),
            keyholder_ratings: Seq::empty(),
            recurring_rules: Seq::empty(),
            api_tokens: Seq::empty(),
            invites: Seq::empty(),
            reset_tokens: Seq::empty(),
            credentials: Seq::empty(),
            recovery_codes: Seq::empty(),
            challenges: Seq::empty(),
        }
    }
}

impl Ledger {
    /// A ledger without rows.
    pub fn new() -> (r: Ledger)
        ensures
            r@ == LedgerView::empty(),
    {
        let r = Ledger {
            users: Vec::new(),
            sessions: Vec::new(),
            keyholder_profiles: Vec::new(),
            submissive_profiles: Vec::new(),
            links: Vec::new(),
            policies: Vec::new(),
            codes: Vec::new(),
            devices: Vec::new(),
            confinements: Vec::new(),
            adjustments: Vec::new(),
            templates: Vec::new(),
            assignments: Vec::new(),
            transactions: Vec::new(),
            redemptions: Vec::new(),
            audit_log: Vec::new(),
            submissions: Vec::new(),
            attachments: Vec::new(),
            alerts: Vec::new(),
            notifications: Vec::new(),
            vapid_keys: Vec::new(),
            subscriptions: Vec::new(),
            checkin_templates: Vec::new(),
            checkin_fields: Vec::new(),
            checkins: Vec::new(),
            play_templates: Vec::new(),
            play_sessions: Vec::new(),
            play_session_toys: Vec::new(),
            play_schedule: Vec::new(),
            toys: Vec::new(),
            limit_items: Vec::new(),
            submissive_ratings: Vec::new(),
            keyholder_ratings: Vec::new(),
            recurring_rules: Vec::new(),
            api_tokens: Vec::new(),
            invites: Vec::new(),
            reset_tokens: Vec::new(),
            credentials: Vec::new(),
            recovery_codes: Vec::new(),
            challenges: Vec::new(),
        };
        assert(r@ =~= LedgerView::empty());
        r
    }

    /// A working copy: what is done to it reaches the ledger when it is written back,
    /// and is lost when it is dropped.
    pub fn transaction(&self) -> (r: Ledger)
        ensures
            r@ == self@,
    {
        Ledger {
            users: dup_rows(&self.users),
            sessions: dup_rows(&self.sessions),
            keyholder_profiles: dup_rows(&self.keyholder_profiles),
            submissive_profiles: dup_rows(&self.submissive_profiles),
            links: dup_rows(&self.links),
            policies: dup_rows(&self.policies),
            codes: dup_rows(&self.codes),
            devices: dup_rows(&self.devices),
            confinements: dup_rows(&self.confinements),
            adjustments: dup_rows(&self.adjustments),
            templates: dup_rows(&self.templates),
            assignments: dup_rows(&self.assignments),
            transactions: dup_rows(&self.transactions),
            redemptions: dup_rows(&self.redemptions),
            audit_log: dup_rows(&self.audit_log),
            submissions: dup_rows(&self.submissions),
            attachments: dup_rows(&self.attachments),
            alerts: dup_rows(&self.alerts),
            notifications: dup_rows(&self.notifications),
            vapid_keys: dup_rows(&self.vapid_keys),
            subscriptions: dup_rows(&self.subscriptions),
            checkin_templates: dup_rows(&self.checkin_templates),
            checkin_fields: dup_rows(&self.checkin_fields),
            checkins: dup_rows(&self.checkins),
            play_templates: dup_rows(&self.play_templates),
            play_sessions: dup_rows(&self.play_sessions),
            play_session_toys: dup_rows(&self.play_session_toys),
            play_schedule: dup_rows(&self.play_schedule),
            toys: dup_rows(&self.toys),
            limit_items: dup_rows(&self.limit_items),
            submissive_ratings: dup_rows(&self.submissive_ratings),
            keyholder_ratings: dup_rows(&self.keyholder_ratings),
            recurring_rules: dup_rows(&self.recurring_rules),
            api_tokens: dup_rows(&self.api_tokens),
            invites: dup_rows(&self.invites),
            reset_tokens: dup_rows(&self.reset_tokens),
            credentials: dup_rows(&self.credentials),
            recovery_codes: dup_rows(&self.recovery_codes),
            challenges: dup_rows(&self.challenges),
        }
    }
}

} // verus!
