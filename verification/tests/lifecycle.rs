use private_data::lifecycle::{
    create_default_privacy_settings, delete_session, get_my_sessions, get_privacy_settings,
    get_recovery_phrase, get_user_profile, mark_recovery_phrase_verified, store_recovery_phrase,
    store_session, store_user_profile, update_privacy_settings, update_recovery_phrase,
    update_user_profile,
};
use private_data::store::Store;
use private_data::types::{Error, LinkTypes, PrivacySettings, RecoveryPhrase, Session, UserProfile};

const OWNER: u64 = 7;

fn profile(ts: i64) -> UserProfile {
    UserProfile {
        encrypted_email: format!("email-{}", ts),
        nonce: String::from("n"),
        salt: String::from("s"),
        tag: String::from("t"),
        username: Some(String::from("u")),
        display_name: String::from("d"),
        created_at: ts,
        updated_at: ts,
    }
}

fn phrase(ts: i64) -> RecoveryPhrase {
    RecoveryPhrase {
        encrypted_mnemonic: format!("mnemonic-{}", ts),
        nonce: String::from("n"),
        salt: String::from("s"),
        tag: String::from("t"),
        verified: false,
        created_at: ts,
    }
}

fn session(ts: i64) -> Session {
    Session {
        user_agent: String::from("agent"),
        ip_address: String::from("ip"),
        device_info: String::from("device"),
        conductor_id: format!("conductor-{}", ts),
        created_at: ts,
        last_active: ts,
    }
}

/// Chain length, counted as links from the edge target to the head.
fn chain_links(s: &Store, start: usize) -> usize {
    let mut cur = start;
    let mut links: usize = 0;
    while !s.successors_of(cur).is_empty() {
        cur = *s.successors_of(cur).last().unwrap();
        links += 1;
    }
    links
}

#[test]
fn profile_resolves_to_latest_of_three_revisions() {
    let mut s = Store::new();
    store_user_profile(&mut s, OWNER, profile(1));
    update_user_profile(&mut s, OWNER, profile(2)).unwrap();
    update_user_profile(&mut s, OWNER, profile(3)).unwrap();
    let got = get_user_profile(&s, OWNER).unwrap().unwrap();
    assert_eq!(got, profile(3));
    // two updates of the original revision: a chain of two links
    let (_, target) = s.first_edge(OWNER, LinkTypes::AgentToProfile).unwrap();
    assert_eq!(chain_links(&s, target), 2);
}

#[test]
fn profile_chain_grows_one_link_per_update() {
    let mut s = Store::new();
    store_user_profile(&mut s, OWNER, profile(0));
    for n in 1..6i64 {
        update_user_profile(&mut s, OWNER, profile(n)).unwrap();
        let (_, target) = s.first_edge(OWNER, LinkTypes::AgentToProfile).unwrap();
        assert_eq!(chain_links(&s, target), n as usize);
        assert_eq!(get_user_profile(&s, OWNER).unwrap().unwrap(), profile(n));
    }
}

#[test]
fn deleting_the_profile_edge_makes_the_record_absent() {
    let mut s = Store::new();
    store_user_profile(&mut s, OWNER, profile(10));
    update_user_profile(&mut s, OWNER, profile(20)).unwrap();
    update_user_profile(&mut s, OWNER, profile(30)).unwrap();
    assert_eq!(get_user_profile(&s, OWNER).unwrap().unwrap(), profile(30));
    let (edge_id, _) = s.first_edge(OWNER, LinkTypes::AgentToProfile).unwrap();
    s.remove_edge(edge_id).unwrap();
    assert_eq!(get_user_profile(&s, OWNER).unwrap(), None);
}

#[test]
fn profile_absent_reads_as_none_not_error() {
    let s = Store::new();
    assert_eq!(get_user_profile(&s, OWNER), Ok(None));
}

#[test]
fn updating_an_absent_profile_is_not_found() {
    let mut s = Store::new();
    assert_eq!(update_user_profile(&mut s, OWNER, profile(1)), Err(Error::NotFound));
}

#[test]
fn updating_someone_elses_profile_is_unauthorized() {
    let mut s = Store::new();
    store_user_profile(&mut s, OWNER, profile(1));
    // a second identity pointing an edge at the same chain cannot update it
    let intruder = OWNER + 1;
    assert_eq!(update_user_profile(&mut s, OWNER, profile(2)), Ok(1));
    let (_, target) = s.first_edge(OWNER, LinkTypes::AgentToProfile).unwrap();
    assert_eq!(s.chain_append(intruder, target, private_data::types::EntryTypes::UserProfile(profile(3))), Err(Error::Unauthorized));
}

#[test]
fn a_deleted_revision_breaks_the_chain() {
    let mut s = Store::new();
    store_user_profile(&mut s, OWNER, profile(1));
    let h2 = update_user_profile(&mut s, OWNER, profile(2)).unwrap();
    s.delete_record(OWNER, h2).unwrap();
    assert_eq!(get_user_profile(&s, OWNER), Err(Error::ChainBroken));
}

#[test]
fn recovery_phrase_replace_chain_keeps_one_edge_and_newest_timestamp() {
    let mut s = Store::new();
    store_recovery_phrase(&mut s, OWNER, phrase(10));
    mark_recovery_phrase_verified(&mut s, OWNER, 20).unwrap();
    update_recovery_phrase(&mut s, OWNER, phrase(0), 30).unwrap();
    update_recovery_phrase(&mut s, OWNER, phrase(0), 40).unwrap();
    let edges = s.list_edges(OWNER, LinkTypes::AgentToRecoveryPhrase);
    assert_eq!(edges.len(), 1);
    let got = get_recovery_phrase(&s, OWNER).unwrap();
    assert_eq!(got.created_at, 40);
    // the rotated payload carries the rotation timestamp, newest of all
    for e in &s.entries {
        if let private_data::types::EntryTypes::RecoveryPhrase(rp) = &e.payload {
            assert!(rp.created_at <= 40);
        }
    }
}

#[test]
fn verification_marks_the_phrase_and_moves_its_timestamp_forward() {
    let mut s = Store::new();
    store_recovery_phrase(&mut s, OWNER, phrase(10));
    assert!(!get_recovery_phrase(&s, OWNER).unwrap().verified);
    mark_recovery_phrase_verified(&mut s, OWNER, 25).unwrap();
    let got = get_recovery_phrase(&s, OWNER).unwrap();
    assert!(got.verified);
    assert_eq!(got.created_at, 25);
    assert_eq!(got.encrypted_mnemonic, String::from("mnemonic-10"));
}

#[test]
fn duplicate_phrase_edges_resolve_by_greatest_timestamp() {
    let mut s = Store::new();
    // racing creates leave duplicate edges; resolution repairs by timestamp
    store_recovery_phrase(&mut s, OWNER, phrase(50));
    store_recovery_phrase(&mut s, OWNER, phrase(30));
    assert_eq!(s.list_edges(OWNER, LinkTypes::AgentToRecoveryPhrase).len(), 2);
    assert_eq!(get_recovery_phrase(&s, OWNER).unwrap().created_at, 50);
}

#[test]
fn verifying_an_absent_phrase_is_not_found() {
    let mut s = Store::new();
    assert_eq!(mark_recovery_phrase_verified(&mut s, OWNER, 1), Err(Error::NotFound));
    assert_eq!(update_recovery_phrase(&mut s, OWNER, phrase(1), 2), Err(Error::NotFound));
}

#[test]
fn sessions_accumulate_and_delete_individually() {
    let mut s = Store::new();
    let h1 = store_session(&mut s, OWNER, session(1));
    store_session(&mut s, OWNER, session(2));
    assert_eq!(get_my_sessions(&s, OWNER), vec![session(1), session(2)]);
    delete_session(&mut s, OWNER, h1).unwrap();
    assert_eq!(get_my_sessions(&s, OWNER), vec![session(2)]);
}

#[test]
fn deleting_a_session_checks_author_and_existence() {
    let mut s = Store::new();
    let h = store_session(&mut s, OWNER, session(1));
    assert_eq!(delete_session(&mut s, OWNER + 1, h), Err(Error::Unauthorized));
    assert_eq!(delete_session(&mut s, OWNER, h + 100), Err(Error::NotFound));
    assert_eq!(delete_session(&mut s, OWNER, h), Ok(h));
    // already deleted
    assert_eq!(delete_session(&mut s, OWNER, h), Err(Error::NotFound));
}

#[test]
fn default_privacy_settings_are_created_once() {
    let mut s = Store::new();
    assert_eq!(get_privacy_settings(&s, OWNER), Ok(None));
    create_default_privacy_settings(&mut s, OWNER, 1000).unwrap();
    let got = get_privacy_settings(&s, OWNER).unwrap().unwrap();
    assert_eq!(
        got,
        PrivacySettings {
            track_ip_address: true,
            track_user_agent: true,
            activity_log_retention_days: 90,
            auto_anonymize_after_days: None,
            created_at: 1000,
            updated_at: 1000,
        }
    );
    assert_eq!(
        create_default_privacy_settings(&mut s, OWNER, 2000),
        Err(Error::DuplicateState)
    );
}

#[test]
fn privacy_settings_update_follows_the_chain() {
    let mut s = Store::new();
    create_default_privacy_settings(&mut s, OWNER, 1000).unwrap();
    let mut changed = get_privacy_settings(&s, OWNER).unwrap().unwrap();
    changed.track_ip_address = false;
    changed.activity_log_retention_days = 30;
    changed.updated_at = 2000;
    update_privacy_settings(&mut s, OWNER, changed).unwrap();
    let got = get_privacy_settings(&s, OWNER).unwrap().unwrap();
    assert!(!got.track_ip_address);
    assert_eq!(got.activity_log_retention_days, 30);
    assert_eq!(got.updated_at, 2000);
}

#[test]
fn owners_do_not_see_each_other() {
    let mut s = Store::new();
    store_user_profile(&mut s, OWNER, profile(1));
    store_session(&mut s, OWNER, session(1));
    let other = OWNER + 1;
    assert_eq!(get_user_profile(&s, other), Ok(None));
    assert_eq!(get_my_sessions(&s, other), vec![]);
}

#[test]
fn the_store_fetches_by_hash_until_deletion() {
    let mut s = Store::new();
    let h = store_session(&mut s, OWNER, session(9));
    match s.get(h) {
        Some(private_data::types::EntryTypes::Session(got)) => assert_eq!(got, session(9)),
        _ => panic!("expected the stored session"),
    }
    assert!(s.get(h + 1).is_none());
    delete_session(&mut s, OWNER, h).unwrap();
    assert!(s.get(h).is_none());
}
