use private_data::permissions::{
    check_email_permission, get_email_permissions, grant_email_permission,
    record_permission_usage, revoke_email_permission, GrantPermissionInput,
};
use private_data::store::Store;
use private_data::types::Error;

const OWNER: u64 = 3;

fn grant_input(service: &str) -> GrantPermissionInput {
    GrantPermissionInput {
        service_name: String::from(service),
        purpose: format!("purpose of {}", service),
    }
}

#[test]
fn granting_creates_a_permission_with_consent() {
    let mut s = Store::new();
    grant_email_permission(&mut s, OWNER, grant_input("billing"), 100).unwrap();
    let perms = get_email_permissions(&s, OWNER);
    assert_eq!(perms.len(), 1);
    let p = &perms[0];
    assert_eq!(p.service_name, String::from("billing"));
    assert_eq!(p.purpose, String::from("purpose of billing"));
    assert!(p.granted);
    assert_eq!(p.granted_at, Some(100));
    assert_eq!(p.revoked_at, None);
    assert_eq!(p.last_used_at, None);
    assert_eq!(p.created_at, 100);
    assert_eq!(p.updated_at, 100);
    assert!(check_email_permission(&s, OWNER, String::from("billing")));
    assert!(!check_email_permission(&s, OWNER, String::from("support")));
}

#[test]
fn regranting_updates_the_existing_instance() {
    let mut s = Store::new();
    grant_email_permission(&mut s, OWNER, grant_input("billing"), 100).unwrap();
    grant_email_permission(&mut s, OWNER, grant_input("billing"), 200).unwrap();
    let perms = get_email_permissions(&s, OWNER);
    assert_eq!(perms.len(), 1);
    assert_eq!(perms[0].granted_at, Some(200));
    assert_eq!(perms[0].created_at, 100);
    assert_eq!(perms[0].updated_at, 200);
}

#[test]
fn distinct_services_get_distinct_instances() {
    let mut s = Store::new();
    grant_email_permission(&mut s, OWNER, grant_input("billing"), 100).unwrap();
    grant_email_permission(&mut s, OWNER, grant_input("support"), 110).unwrap();
    let perms = get_email_permissions(&s, OWNER);
    assert_eq!(perms.len(), 2);
    assert_eq!(perms[0].service_name, String::from("billing"));
    assert_eq!(perms[1].service_name, String::from("support"));
}

#[test]
fn revoking_withdraws_consent_and_keeps_the_instance() {
    let mut s = Store::new();
    grant_email_permission(&mut s, OWNER, grant_input("billing"), 100).unwrap();
    revoke_email_permission(&mut s, OWNER, String::from("billing"), 150).unwrap();
    let perms = get_email_permissions(&s, OWNER);
    assert_eq!(perms.len(), 1);
    assert!(!perms[0].granted);
    assert_eq!(perms[0].revoked_at, Some(150));
    assert_eq!(perms[0].updated_at, 150);
    assert!(!check_email_permission(&s, OWNER, String::from("billing")));
}

#[test]
fn revoking_twice_or_revoking_nothing_is_not_found() {
    let mut s = Store::new();
    assert_eq!(
        revoke_email_permission(&mut s, OWNER, String::from("billing"), 100),
        Err(Error::NotFound)
    );
    grant_email_permission(&mut s, OWNER, grant_input("billing"), 100).unwrap();
    revoke_email_permission(&mut s, OWNER, String::from("billing"), 150).unwrap();
    assert_eq!(
        revoke_email_permission(&mut s, OWNER, String::from("billing"), 160),
        Err(Error::NotFound)
    );
}

#[test]
fn regranting_a_revoked_permission_restores_consent() {
    let mut s = Store::new();
    grant_email_permission(&mut s, OWNER, grant_input("billing"), 100).unwrap();
    revoke_email_permission(&mut s, OWNER, String::from("billing"), 150).unwrap();
    grant_email_permission(&mut s, OWNER, grant_input("billing"), 200).unwrap();
    let perms = get_email_permissions(&s, OWNER);
    assert_eq!(perms.len(), 1);
    assert!(perms[0].granted);
    assert_eq!(perms[0].granted_at, Some(200));
    assert_eq!(perms[0].revoked_at, None);
    assert!(check_email_permission(&s, OWNER, String::from("billing")));
}

#[test]
fn usage_is_recorded_for_granted_services_only() {
    let mut s = Store::new();
    assert_eq!(
        record_permission_usage(&mut s, OWNER, String::from("billing"), 100),
        Err(Error::NotFound)
    );
    grant_email_permission(&mut s, OWNER, grant_input("billing"), 100).unwrap();
    record_permission_usage(&mut s, OWNER, String::from("billing"), 120).unwrap();
    let perms = get_email_permissions(&s, OWNER);
    assert_eq!(perms[0].last_used_at, Some(120));
    assert_eq!(perms[0].updated_at, 120);
    revoke_email_permission(&mut s, OWNER, String::from("billing"), 150).unwrap();
    assert_eq!(
        record_permission_usage(&mut s, OWNER, String::from("billing"), 160),
        Err(Error::NotFound)
    );
}
