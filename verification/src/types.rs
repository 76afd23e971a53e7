//! Record kinds, payload types and the kind registry.
//!
//! The registry maps every record kind to its link type, its cardinality
//! (singleton or multi-instance) and its update policy (extend the update
//! chain, or delete all edges and relink a fresh entry).

use vstd::prelude::*;

verus! {

/// Errors surfaced by the record store.
///
/// Absence of a record is a valid state for reads and is reported as `None`
/// or an empty list, never as an error; `NotFound` is returned only by
/// mutations that need an existing record.
#[derive(Clone, Copy, Debug, PartialEq, Eq, Structural)]
pub enum Error {
    /// No record or edge exists where a mutation required one.
    NotFound,
    /// A hash inside an update chain cannot be fetched: a data-integrity
    /// failure that is always surfaced, never silently recovered.
    ChainBroken,
    /// A mutation was attempted by an identity other than the record's owner.
    Unauthorized,
    /// A singleton kind holds more than one edge; repaired by
    /// timestamp-based resolution, not fatal.
    DuplicateState,
    /// An imported bundle lacks a field the current registry expects; the
    /// field is filled with a documented default, not fatal.
    MigrationFieldMissing,
}

/// The logical record kinds known to the registry.
#[derive(Clone, Copy, Debug, PartialEq, Eq, Structural)]
pub enum RecordKind {
    Profile,
    RecoveryPhrase,
    Session,
    EmailPermission,
    LoginActivity,
    DashboardActivity,
    OAuthActivity,
    PrivacySettings,
    AppAnalyticsId,
}

/// How a kind is mutated: by extending its update chain, or by deleting all
/// of its edges and creating a fresh, unlinked entry with a new edge.
#[derive(Clone, Copy, Debug, PartialEq, Eq, Structural)]
pub enum UpdatePolicy {
    Chain,
    Replace,
}

/// Link types: one per record kind, naming the edges from an owner key to
/// the entries of that kind.
#[derive(Clone, Copy, Debug, PartialEq, Eq, Structural)]
pub enum LinkTypes {
    AgentToProfile,
    AgentToRecoveryPhrase,
    AgentToSessions,
    AgentToEmailPermissions,
    AgentToLoginActivity,
    AgentToDashboardActivity,
    AgentToOAuthActivity,
    AgentToPrivacySettings,
    AgentToAppAnalyticsId,
}

/// Encrypted user profile.  Binary data is carried as base64 strings; the
/// core treats all of them as opaque.
#[derive(Debug, PartialEq, Eq)]
pub struct UserProfile {
    pub encrypted_email: String,
    pub nonce: String,
    pub salt: String,
    pub tag: String,
    pub username: Option<String>,
    pub display_name: String,
    pub created_at: i64,
    pub updated_at: i64,
}

/// Encrypted recovery phrase: the singleton secret kind, mutated with the
/// replace policy and resolved by greatest `created_at`.
#[derive(Debug, PartialEq, Eq)]
pub struct RecoveryPhrase {
    pub encrypted_mnemonic: String,
    pub nonce: String,
    pub salt: String,
    pub tag: String,
    pub verified: bool,
    pub created_at: i64,
}

/// Session tracking record; deprecated, kept for backward-compatible
/// migration.
#[derive(Debug, PartialEq, Eq)]
pub struct Session {
    pub user_agent: String,
    pub ip_address: String,
    pub device_info: String,
    pub conductor_id: String,
    pub created_at: i64,
    pub last_active: i64,
}

/// Consent for a named service to use the owner's email, keyed by service
/// name.
#[derive(Debug, PartialEq, Eq)]
pub struct EmailPermission {
    pub service_name: String,
    pub purpose: String,
    pub granted: bool,
    pub granted_at: Option<i64>,
    pub revoked_at: Option<i64>,
    pub last_used_at: Option<i64>,
    pub created_at: i64,
    pub updated_at: i64,
}

/// Login event in the owner's private activity log.
#[derive(Debug, PartialEq, Eq)]
pub struct LoginActivity {
    pub timestamp: i64,
    pub login_method: String,
    pub ip_address: Option<String>,
    pub user_agent: Option<String>,
    pub session_id: String,
    pub created_at: i64,
}

/// Dashboard page visit in the owner's private activity log.
#[derive(Debug, PartialEq, Eq)]
pub struct DashboardActivity {
    pub visit_timestamp: i64,
    pub page_path: String,
    pub duration_seconds: Option<i64>,
    pub created_at: i64,
}

/// Third-party application event in the owner's private activity log.
#[derive(Debug, PartialEq, Eq)]
pub struct OAuthActivity {
    pub timestamp: i64,
    pub app_id: String,
    pub app_name: String,
    pub event_type: String,
    pub created_at: i64,
}

/// The owner's controls for activity tracking.
#[derive(Debug, PartialEq, Eq)]
pub struct PrivacySettings {
    pub track_ip_address: bool,
    pub track_user_agent: bool,
    pub activity_log_retention_days: i64,
    pub auto_anonymize_after_days: Option<i64>,
    pub created_at: i64,
    pub updated_at: i64,
}

/// Per-application analytics alias, keyed by application id.
#[derive(Debug, PartialEq, Eq)]
pub struct AppAnalyticsId {
    pub app_id: String,
    pub analytics_id: String,
    pub created_at: i64,
}

/// A payload of one record kind, as held by a stored entry.
#[derive(Debug, PartialEq, Eq)]
pub enum EntryTypes {
    UserProfile(UserProfile),
    RecoveryPhrase(RecoveryPhrase),
    Session(Session),
    EmailPermission(EmailPermission),
    LoginActivity(LoginActivity),
    DashboardActivity(DashboardActivity),
    OAuthActivity(OAuthActivity),
    PrivacySettings(PrivacySettings),
    AppAnalyticsId(AppAnalyticsId),
}

/// The kind of a payload.
pub open spec fn payload_kind(p: EntryTypes) -> RecordKind {
    match p {
        EntryTypes::UserProfile(_) => RecordKind::Profile,
        EntryTypes::RecoveryPhrase(_) => RecordKind::RecoveryPhrase,
        EntryTypes::Session(_) => RecordKind::Session,
        EntryTypes::EmailPermission(_) => RecordKind::EmailPermission,
        EntryTypes::LoginActivity(_) => RecordKind::LoginActivity,
        EntryTypes::DashboardActivity(_) => RecordKind::DashboardActivity,
        EntryTypes::OAuthActivity(_) => RecordKind::OAuthActivity,
        EntryTypes::PrivacySettings(_) => RecordKind::PrivacySettings,
        EntryTypes::AppAnalyticsId(_) => RecordKind::AppAnalyticsId,
    }
}

/// The link type under which edges of a kind are indexed.
pub open spec fn link_of_kind(k: RecordKind) -> LinkTypes {
    match k {
        RecordKind::Profile => LinkTypes::AgentToProfile,
        RecordKind::RecoveryPhrase => LinkTypes::AgentToRecoveryPhrase,
        RecordKind::Session => LinkTypes::AgentToSessions,
        RecordKind::EmailPermission => LinkTypes::AgentToEmailPermissions,
        RecordKind::LoginActivity => LinkTypes::AgentToLoginActivity,
        RecordKind::DashboardActivity => LinkTypes::AgentToDashboardActivity,
        RecordKind::OAuthActivity => LinkTypes::AgentToOAuthActivity,
        RecordKind::PrivacySettings => LinkTypes::AgentToPrivacySettings,
        RecordKind::AppAnalyticsId => LinkTypes::AgentToAppAnalyticsId,
    }
}

/// The kind whose edges a link type carries: the inverse of
/// [`link_of_kind`].
pub open spec fn kind_of_link(l: LinkTypes) -> RecordKind {
    match l {
        LinkTypes::AgentToProfile => RecordKind::Profile,
        LinkTypes::AgentToRecoveryPhrase => RecordKind::RecoveryPhrase,
        LinkTypes::AgentToSessions => RecordKind::Session,
        LinkTypes::AgentToEmailPermissions => RecordKind::EmailPermission,
        LinkTypes::AgentToLoginActivity => RecordKind::LoginActivity,
        LinkTypes::AgentToDashboardActivity => RecordKind::DashboardActivity,
        LinkTypes::AgentToOAuthActivity => RecordKind::OAuthActivity,
        LinkTypes::AgentToPrivacySettings => RecordKind::PrivacySettings,
        LinkTypes::AgentToAppAnalyticsId => RecordKind::AppAnalyticsId,
    }
}

/// The registry's kinds and link types correspond one to one: every kind
/// is indexed under its own link type, and every link type carries edges
/// of exactly one kind.
pub proof fn lemma_registry_links_bijective()
    ensures
        forall|k: RecordKind| #[trigger] kind_of_link(link_of_kind(k)) == k,
        forall|l: LinkTypes| #[trigger] link_of_kind(kind_of_link(l)) == l,
{
}

/// Whether at most one logical instance of the kind should exist per owner.
/// The design tolerates and repairs duplicates rather than preventing them.
pub open spec fn is_singleton(k: RecordKind) -> bool {
    match k {
        RecordKind::Profile => true,
        RecordKind::RecoveryPhrase => true,
        RecordKind::PrivacySettings => true,
        _ => false,
    }
}

/// The update policy of a kind.  Only the recovery phrase uses the replace
/// policy: verification followed by repeated rotation made predecessor
/// linking unreliable for it, so mutation is delete-and-recreate with
/// timestamp-based resolution as the safety net.
pub open spec fn update_policy(k: RecordKind) -> UpdatePolicy {
    match k {
        RecordKind::RecoveryPhrase => UpdatePolicy::Replace,
        _ => UpdatePolicy::Chain,
    }
}

/// The profile inside a payload of kind `Profile`.
pub open spec fn as_user_profile(p: EntryTypes) -> UserProfile {
    match p {
        EntryTypes::UserProfile(x) => x,
        _ => arbitrary(),
    }
}

/// The recovery phrase inside a payload of kind `RecoveryPhrase`.
pub open spec fn as_recovery_phrase(p: EntryTypes) -> RecoveryPhrase {
    match p {
        EntryTypes::RecoveryPhrase(x) => x,
        _ => arbitrary(),
    }
}

/// The session inside a payload of kind `Session`.
pub open spec fn as_session(p: EntryTypes) -> Session {
    match p {
        EntryTypes::Session(x) => x,
        _ => arbitrary(),
    }
}

/// The permission inside a payload of kind `EmailPermission`.
pub open spec fn as_email_permission(p: EntryTypes) -> EmailPermission {
    match p {
        EntryTypes::EmailPermission(x) => x,
        _ => arbitrary(),
    }
}

/// The event inside a payload of kind `LoginActivity`.
pub open spec fn as_login_activity(p: EntryTypes) -> LoginActivity {
    match p {
        EntryTypes::LoginActivity(x) => x,
        _ => arbitrary(),
    }
}

/// The event inside a payload of kind `DashboardActivity`.
pub open spec fn as_dashboard_activity(p: EntryTypes) -> DashboardActivity {
    match p {
        EntryTypes::DashboardActivity(x) => x,
        _ => arbitrary(),
    }
}

/// The event inside a payload of kind `OAuthActivity`.
pub open spec fn as_oauth_activity(p: EntryTypes) -> OAuthActivity {
    match p {
        EntryTypes::OAuthActivity(x) => x,
        _ => arbitrary(),
    }
}

/// The settings inside a payload of kind `PrivacySettings`.
pub open spec fn as_privacy_settings(p: EntryTypes) -> PrivacySettings {
    match p {
        EntryTypes::PrivacySettings(x) => x,
        _ => arbitrary(),
    }
}

/// Executable form of [`payload_kind`].
pub fn kind_of(p: &EntryTypes) -> (k: RecordKind)
    ensures
        k == payload_kind(*p),
{
    match p {
        EntryTypes::UserProfile(_) => RecordKind::Profile,
        EntryTypes::RecoveryPhrase(_) => RecordKind::RecoveryPhrase,
        EntryTypes::Session(_) => RecordKind::Session,
        EntryTypes::EmailPermission(_) => RecordKind::EmailPermission,
        EntryTypes::LoginActivity(_) => RecordKind::LoginActivity,
        EntryTypes::DashboardActivity(_) => RecordKind::DashboardActivity,
        EntryTypes::OAuthActivity(_) => RecordKind::OAuthActivity,
        EntryTypes::PrivacySettings(_) => RecordKind::PrivacySettings,
        EntryTypes::AppAnalyticsId(_) => RecordKind::AppAnalyticsId,
    }
}

/// Executable form of [`link_of_kind`].
pub fn link_type_of(k: RecordKind) -> (l: LinkTypes)
    ensures
        l == link_of_kind(k),
{
    match k {
        RecordKind::Profile => LinkTypes::AgentToProfile,
        RecordKind::RecoveryPhrase => LinkTypes::AgentToRecoveryPhrase,
        RecordKind::Session => LinkTypes::AgentToSessions,
        RecordKind::EmailPermission => LinkTypes::AgentToEmailPermissions,
        RecordKind::LoginActivity => LinkTypes::AgentToLoginActivity,
        RecordKind::DashboardActivity => LinkTypes::AgentToDashboardActivity,
        RecordKind::OAuthActivity => LinkTypes::AgentToOAuthActivity,
        RecordKind::PrivacySettings => LinkTypes::AgentToPrivacySettings,
        RecordKind::AppAnalyticsId => LinkTypes::AgentToAppAnalyticsId,
    }
}

impl Clone for UserProfile {
    fn clone(&self) -> (r: Self)
        ensures
            r == *self,
    {
        UserProfile {
            encrypted_email: self.encrypted_email.clone(),
            nonce: self.nonce.clone(),
            salt: self.salt.clone(),
            tag: self.tag.clone(),
            username: clone_opt_string(&self.username),
            display_name: self.display_name.clone(),
            created_at: self.created_at,
            updated_at: self.updated_at,
        }
    }
}

impl Clone for RecoveryPhrase {
    fn clone(&self) -> (r: Self)
        ensures
            r == *self,
    {
        RecoveryPhrase {
            encrypted_mnemonic: self.encrypted_mnemonic.clone(),
            nonce: self.nonce.clone(),
            salt: self.salt.clone(),
            tag: self.tag.clone(),
            verified: self.verified,
            created_at: self.created_at,
        }
    }
}

impl Clone for Session {
    fn clone(&self) -> (r: Self)
        ensures
            r == *self,
    {
        Session {
            user_agent: self.user_agent.clone(),
            ip_address: self.ip_address.clone(),
            device_info: self.device_info.clone(),
            conductor_id: self.conductor_id.clone(),
            created_at: self.created_at,
            last_active: self.last_active,
        }
    }
}

impl Clone for EmailPermission {
    fn clone(&self) -> (r: Self)
        ensures
            r == *self,
    {
        EmailPermission {
            service_name: self.service_name.clone(),
            purpose: self.purpose.clone(),
            granted: self.granted,
            granted_at: self.granted_at,
            revoked_at: self.revoked_at,
            last_used_at: self.last_used_at,
            created_at: self.created_at,
            updated_at: self.updated_at,
        }
    }
}

impl Clone for LoginActivity {
    fn clone(&self) -> (r: Self)
        ensures
            r == *self,
    {
        LoginActivity {
            timestamp: self.timestamp,
            login_method: self.login_method.clone(),
            ip_address: clone_opt_string(&self.ip_address),
            user_agent: clone_opt_string(&self.user_agent),
            session_id: self.session_id.clone(),
            created_at: self.created_at,
        }
    }
}

impl Clone for DashboardActivity {
    fn clone(&self) -> (r: Self)
        ensures
            r == *self,
    {
        DashboardActivity {
            visit_timestamp: self.visit_timestamp,
            page_path: self.page_path.clone(),
            duration_seconds: self.duration_seconds,
            created_at: self.created_at,
        }
    }
}

impl Clone for OAuthActivity {
    fn clone(&self) -> (r: Self)
        ensures
            r == *self,
    {
        OAuthActivity {
            timestamp: self.timestamp,
            app_id: self.app_id.clone(),
            app_name: self.app_name.clone(),
            event_type: self.event_type.clone(),
            created_at: self.created_at,
        }
    }
}

impl Clone for PrivacySettings {
    fn clone(&self) -> (r: Self)
        ensures
            r == *self,
    {
        PrivacySettings {
            track_ip_address: self.track_ip_address,
            track_user_agent: self.track_user_agent,
            activity_log_retention_days: self.activity_log_retention_days,
            auto_anonymize_after_days: self.auto_anonymize_after_days,
            created_at: self.created_at,
            updated_at: self.updated_at,
        }
    }
}

impl Clone for AppAnalyticsId {
    fn clone(&self) -> (r: Self)
        ensures
            r == *self,
    {
        AppAnalyticsId {
            app_id: self.app_id.clone(),
            analytics_id: self.analytics_id.clone(),
            created_at: self.created_at,
        }
    }
}

impl Clone for EntryTypes {
    fn clone(&self) -> (r: Self)
        ensures
            r == *self,
    {
        match self {
            EntryTypes::UserProfile(p) => EntryTypes::UserProfile(p.clone()),
            EntryTypes::RecoveryPhrase(p) => EntryTypes::RecoveryPhrase(p.clone()),
            EntryTypes::Session(p) => EntryTypes::Session(p.clone()),
            EntryTypes::EmailPermission(p) => EntryTypes::EmailPermission(p.clone()),
            EntryTypes::LoginActivity(p) => EntryTypes::LoginActivity(p.clone()),
            EntryTypes::DashboardActivity(p) => EntryTypes::DashboardActivity(p.clone()),
            EntryTypes::OAuthActivity(p) => EntryTypes::OAuthActivity(p.clone()),
            EntryTypes::PrivacySettings(p) => EntryTypes::PrivacySettings(p.clone()),
            EntryTypes::AppAnalyticsId(p) => EntryTypes::AppAnalyticsId(p.clone()),
        }
    }
}

/// Clones an optional string, preserving spec-level equality.
fn clone_opt_string(s: &Option<String>) -> (r: Option<String>)
    ensures
        r == *s,
{
    match s {
        Option::Some(v) => Option::Some(v.clone()),
        Option::None => Option::None,
    }
}

} // verus!
