use private_data::activity::{get_login_activity, store_login_activity, GetActivityInput};
use private_data::lifecycle::{
    create_default_privacy_settings, get_my_sessions, get_privacy_settings, get_recovery_phrase,
    get_user_profile, store_recovery_phrase, store_session, store_user_profile,
    update_user_profile,
};
use private_data::migrate::{export_all_data, import_data, ExportedData};
use private_data::permissions::{get_email_permissions, grant_email_permission,
    GrantPermissionInput};
use private_data::store::Store;
use private_data::types::{Error, RecordKind, RecoveryPhrase, Session, UserProfile};
use private_data::validate::{genesis_self_check, validate, Op, ValidateCallbackResult};

const OWNER: u64 = 42;

fn profile(ts: i64) -> UserProfile {
    UserProfile {
        encrypted_email: format!("email-{}", ts),
        nonce: String::from("n"),
        salt: String::from("s"),
        tag: String::from("t"),
        username: None,
        display_name: String::from("d"),
        created_at: ts,
        updated_at: ts,
    }
}

fn phrase(ts: i64) -> RecoveryPhrase {
    RecoveryPhrase {
        encrypted_mnemonic: String::from("mnemonic"),
        nonce: String::from("n"),
        salt: String::from("s"),
        tag: String::from("t"),
        verified: true,
        created_at: ts,
    }
}

fn session(ts: i64) -> Session {
    Session {
        user_agent: String::from("agent"),
        ip_address: String::from("ip"),
        device_info: String::from("device"),
        conductor_id: format!("conductor-{}", ts),
        created_at: ts,
        last_active: ts,
    }
}

fn login(ts: i64) -> private_data::types::LoginActivity {
    private_data::types::LoginActivity {
        timestamp: ts,
        login_method: String::from("sso"),
        ip_address: None,
        user_agent: None,
        session_id: format!("session-{}", ts),
        created_at: ts,
    }
}

fn populated_store() -> Store {
    let mut s = Store::new();
    store_user_profile(&mut s, OWNER, profile(1));
    update_user_profile(&mut s, OWNER, profile(2)).unwrap();
    store_recovery_phrase(&mut s, OWNER, phrase(10));
    store_session(&mut s, OWNER, session(20));
    store_session(&mut s, OWNER, session(21));
    grant_email_permission(
        &mut s,
        OWNER,
        GrantPermissionInput {
            service_name: String::from("billing"),
            purpose: String::from("invoices"),
        },
        30,
    )
    .unwrap();
    store_login_activity(&mut s, OWNER, login(40));
    store_login_activity(&mut s, OWNER, login(41));
    create_default_privacy_settings(&mut s, OWNER, 50).unwrap();
    s
}

#[test]
fn export_snapshots_the_resolved_heads() {
    let s = populated_store();
    let (data, failed) = export_all_data(&s, OWNER, 999);
    assert_eq!(failed.len(), 0);
    assert_eq!(data.user_profile, Some(profile(2)));
    assert_eq!(data.recovery_phrase, Some(phrase(10)));
    assert_eq!(data.sessions, vec![session(20), session(21)]);
    assert_eq!(data.email_permissions.len(), 1);
    assert_eq!(data.login_activities, vec![login(40), login(41)]);
    assert_eq!(data.dashboard_activities.len(), 0);
    assert_eq!(data.oauth_activities.len(), 0);
    assert!(data.privacy_settings.is_some());
    assert_eq!(data.export_timestamp, 999);
    assert_eq!(data.dna_version, String::from("1.6"));
}

#[test]
fn export_reports_a_broken_singleton_chain_per_kind() {
    let mut s = Store::new();
    store_user_profile(&mut s, OWNER, profile(1));
    let h2 = update_user_profile(&mut s, OWNER, profile(2)).unwrap();
    store_session(&mut s, OWNER, session(20));
    s.delete_record(OWNER, h2).unwrap();
    let (data, failed) = export_all_data(&s, OWNER, 999);
    assert_eq!(failed, vec![RecordKind::Profile]);
    // a broken chain is reported, never silently conflated with absence
    assert_eq!(data.user_profile, None);
    // the other kinds are still exported
    assert_eq!(data.sessions, vec![session(20)]);
}

#[test]
fn round_trip_reproduces_every_kind_field_for_field() {
    let src = populated_store();
    let (data, failed) = export_all_data(&src, OWNER, 999);
    assert_eq!(failed.len(), 0);
    let mut dst = Store::new();
    let report = import_data(&mut dst, OWNER, data, 1000);
    assert_eq!(report.failed.len(), 0);
    assert_eq!(report.missing.len(), 0);
    assert_eq!(get_user_profile(&dst, OWNER), get_user_profile(&src, OWNER));
    assert_eq!(get_recovery_phrase(&dst, OWNER), get_recovery_phrase(&src, OWNER));
    assert_eq!(get_my_sessions(&dst, OWNER), get_my_sessions(&src, OWNER));
    assert_eq!(get_email_permissions(&dst, OWNER), get_email_permissions(&src, OWNER));
    let all = GetActivityInput { limit: None, offset: None };
    let all2 = GetActivityInput { limit: None, offset: None };
    assert_eq!(
        get_login_activity(&dst, OWNER, all),
        get_login_activity(&src, OWNER, all2)
    );
    assert_eq!(get_privacy_settings(&dst, OWNER), get_privacy_settings(&src, OWNER));
}

#[test]
fn importing_twice_duplicates_instances_without_corrupting_singletons() {
    let src = populated_store();
    let (data, _) = export_all_data(&src, OWNER, 999);
    let (data2, _) = export_all_data(&src, OWNER, 999);
    let mut dst = Store::new();
    import_data(&mut dst, OWNER, data, 1000);
    let report = import_data(&mut dst, OWNER, data2, 2000);
    assert_eq!(report.failed.len(), 0);
    // multi-instance kinds are duplicated, not deduplicated
    assert_eq!(
        get_my_sessions(&dst, OWNER),
        vec![session(20), session(21), session(20), session(21)]
    );
    assert_eq!(get_email_permissions(&dst, OWNER).len(), 2);
    let all = GetActivityInput { limit: None, offset: None };
    assert_eq!(get_login_activity(&dst, OWNER, all).len(), 4);
    // singletons resolve through the documented repair paths
    assert_eq!(get_user_profile(&dst, OWNER).unwrap(), Some(profile(2)));
    assert_eq!(get_recovery_phrase(&dst, OWNER), Some(phrase(10)));
    assert_eq!(get_privacy_settings(&dst, OWNER).unwrap(), get_privacy_settings(&src, OWNER).unwrap());
}

#[test]
fn import_synthesizes_default_privacy_settings_when_the_bundle_lacks_them() {
    let mut src = Store::new();
    store_session(&mut src, OWNER, session(20));
    let (data, _) = export_all_data(&src, OWNER, 999);
    assert_eq!(data.privacy_settings, None);
    let mut dst = Store::new();
    let report = import_data(&mut dst, OWNER, data, 7777);
    assert_eq!(
        report.missing,
        vec![(RecordKind::PrivacySettings, Error::MigrationFieldMissing)]
    );
    assert_eq!(report.failed.len(), 0);
    let got = get_privacy_settings(&dst, OWNER).unwrap().unwrap();
    assert!(got.track_ip_address);
    assert!(got.track_user_agent);
    assert_eq!(got.activity_log_retention_days, 90);
    assert_eq!(got.created_at, 7777);
}

#[test]
fn import_reports_the_kind_that_failed_and_commits_the_rest() {
    let mut src = Store::new();
    store_session(&mut src, OWNER, session(20));
    let (data, _) = export_all_data(&src, OWNER, 999);
    let mut dst = Store::new();
    // the owner already has settings, so defaulting the missing kind fails
    create_default_privacy_settings(&mut dst, OWNER, 1).unwrap();
    let report = import_data(&mut dst, OWNER, data, 7777);
    assert_eq!(report.failed, vec![(RecordKind::PrivacySettings, Error::DuplicateState)]);
    // the kinds imported before the failure stay committed
    assert_eq!(get_my_sessions(&dst, OWNER), vec![session(20)]);
    // the pre-existing settings are untouched
    assert_eq!(get_privacy_settings(&dst, OWNER).unwrap().unwrap().created_at, 1);
}

#[test]
fn empty_bundle_round_trips_to_an_absent_owner() {
    let src = Store::new();
    let (data, failed) = export_all_data(&src, OWNER, 1);
    assert_eq!(failed.len(), 0);
    let mut dst = Store::new();
    let report = import_data(&mut dst, OWNER, data, 2);
    assert_eq!(report.failed.len(), 0);
    assert_eq!(get_user_profile(&dst, OWNER), Ok(None));
    assert_eq!(get_recovery_phrase(&dst, OWNER), None);
    assert_eq!(get_my_sessions(&dst, OWNER), vec![]);
    // the one synthesized kind: privacy settings get their defaults
    assert!(get_privacy_settings(&dst, OWNER).unwrap().is_some());
}

#[test]
fn updates_and_deletions_must_keep_the_author() {
    assert_eq!(
        validate(&Op::Update { author: 1, original_author: 1 }),
        ValidateCallbackResult::Valid
    );
    assert_eq!(
        validate(&Op::Update { author: 1, original_author: 2 }),
        ValidateCallbackResult::Invalid(String::from("Only original author can update"))
    );
    assert_eq!(
        validate(&Op::Delete { author: 3, original_author: 3 }),
        ValidateCallbackResult::Valid
    );
    assert_eq!(
        validate(&Op::Delete { author: 3, original_author: 4 }),
        ValidateCallbackResult::Invalid(String::from("Only original author can delete"))
    );
}

#[test]
fn creations_links_and_bookkeeping_are_always_valid() {
    assert_eq!(validate(&Op::Create { author: 1 }), ValidateCallbackResult::Valid);
    assert_eq!(validate(&Op::CreateLink { author: 1 }), ValidateCallbackResult::Valid);
    assert_eq!(validate(&Op::DeleteLink { author: 1 }), ValidateCallbackResult::Valid);
    assert_eq!(validate(&Op::AgentActivity), ValidateCallbackResult::Valid);
    assert_eq!(genesis_self_check(), ValidateCallbackResult::Valid);
}
