use private_data::activity::{
    delete_old_dashboard_activity, delete_old_login_activity, delete_old_oauth_activity,
    get_activity_summary, get_dashboard_activity, get_login_activity, get_oauth_activity,
    get_oauth_activity_by_app, store_dashboard_activity, store_login_activity,
    store_oauth_activity, ActivitySummary, GetActivityInput, GetOAuthActivityByAppInput,
};
use private_data::store::Store;
use private_data::types::{DashboardActivity, LoginActivity, OAuthActivity};

const OWNER: u64 = 11;
const DAY: i64 = 86_400_000_000;

fn login(ts: i64) -> LoginActivity {
    LoginActivity {
        timestamp: ts,
        login_method: String::from("password"),
        ip_address: Some(String::from("ip")),
        user_agent: None,
        session_id: format!("session-{}", ts),
        created_at: ts,
    }
}

fn visit(ts: i64) -> DashboardActivity {
    DashboardActivity {
        visit_timestamp: ts,
        page_path: String::from("/dashboard/apps"),
        duration_seconds: Some(5),
        created_at: ts,
    }
}

fn app_event(ts: i64, app: &str) -> OAuthActivity {
    OAuthActivity {
        timestamp: ts,
        app_id: String::from(app),
        app_name: format!("app {}", app),
        event_type: String::from("login"),
        created_at: ts,
    }
}

fn page(limit: Option<u32>, offset: Option<u32>) -> GetActivityInput {
    GetActivityInput { limit, offset }
}

#[test]
fn login_pages_are_newest_first_and_sized_by_limit_and_offset() {
    let mut s = Store::new();
    for ts in 1..6i64 {
        store_login_activity(&mut s, OWNER, login(ts));
    }
    // K = 5 edges; every (limit, offset) returns max(0, min(L, K - O)) items
    assert_eq!(get_login_activity(&s, OWNER, page(None, None)).len(), 5);
    let first_two = get_login_activity(&s, OWNER, page(Some(2), Some(0)));
    assert_eq!(first_two, vec![login(5), login(4)]);
    let middle = get_login_activity(&s, OWNER, page(Some(2), Some(2)));
    assert_eq!(middle, vec![login(3), login(2)]);
    let tail = get_login_activity(&s, OWNER, page(Some(2), Some(4)));
    assert_eq!(tail, vec![login(1)]);
    assert_eq!(get_login_activity(&s, OWNER, page(Some(2), Some(5))).len(), 0);
    assert_eq!(get_login_activity(&s, OWNER, page(Some(2), Some(9))).len(), 0);
    assert_eq!(get_login_activity(&s, OWNER, page(Some(0), Some(0))).len(), 0);
    assert_eq!(get_login_activity(&s, OWNER, page(Some(99), Some(0))).len(), 5);
}

#[test]
fn pagination_is_consistent_across_offsets() {
    let mut s = Store::new();
    for ts in 1..8i64 {
        store_dashboard_activity(&mut s, OWNER, visit(ts));
    }
    let all = get_dashboard_activity(&s, OWNER, page(Some(100), Some(0)));
    assert_eq!(all.len(), 7);
    for o in 0..9u32 {
        let chunk = get_dashboard_activity(&s, OWNER, page(Some(3), Some(o)));
        let expected: usize = if (o as usize) < 7 { usize::min(3, 7 - o as usize) } else { 0 };
        assert_eq!(chunk.len(), expected);
        for (i, item) in chunk.iter().enumerate() {
            assert_eq!(*item, all[o as usize + i]);
        }
    }
}

#[test]
fn oauth_pages_are_newest_first() {
    let mut s = Store::new();
    for ts in 1..4i64 {
        store_oauth_activity(&mut s, OWNER, app_event(ts, "a"));
    }
    let got = get_oauth_activity(&s, OWNER, page(None, None));
    assert_eq!(got, vec![app_event(3, "a"), app_event(2, "a"), app_event(1, "a")]);
}

#[test]
fn oauth_by_app_filters_before_paginating() {
    let mut s = Store::new();
    store_oauth_activity(&mut s, OWNER, app_event(1, "a"));
    store_oauth_activity(&mut s, OWNER, app_event(2, "b"));
    store_oauth_activity(&mut s, OWNER, app_event(3, "a"));
    store_oauth_activity(&mut s, OWNER, app_event(4, "b"));
    let got = get_oauth_activity_by_app(
        &s,
        OWNER,
        GetOAuthActivityByAppInput { app_id: String::from("a"), limit: None, offset: None },
    );
    assert_eq!(got, vec![app_event(3, "a"), app_event(1, "a")]);
    let offset_one = get_oauth_activity_by_app(
        &s,
        OWNER,
        GetOAuthActivityByAppInput { app_id: String::from("b"), limit: Some(1), offset: Some(1) },
    );
    assert_eq!(offset_one, vec![app_event(2, "b")]);
    let none = get_oauth_activity_by_app(
        &s,
        OWNER,
        GetOAuthActivityByAppInput { app_id: String::from("c"), limit: None, offset: None },
    );
    assert_eq!(none.len(), 0);
}

#[test]
fn retention_deletes_exactly_the_entries_past_the_cutoff() {
    let mut s = Store::new();
    let now = 100 * DAY;
    store_login_activity(&mut s, OWNER, login(now - 5 * DAY));
    store_login_activity(&mut s, OWNER, login(now - 40 * DAY));
    store_login_activity(&mut s, OWNER, login(now - 95 * DAY));
    let deleted = delete_old_login_activity(&mut s, OWNER, 90, now);
    assert_eq!(deleted, 1);
    let left = get_login_activity(&s, OWNER, page(None, None));
    assert_eq!(left, vec![login(now - 40 * DAY), login(now - 5 * DAY)]);
    // an immediate second sweep deletes nothing
    assert_eq!(delete_old_login_activity(&mut s, OWNER, 90, now), 0);
}

#[test]
fn retention_boundary_is_strict() {
    let mut s = Store::new();
    let now = 100 * DAY;
    // exactly at the cutoff: not strictly older, survives
    store_dashboard_activity(&mut s, OWNER, visit(now - 90 * DAY));
    store_dashboard_activity(&mut s, OWNER, visit(now - 90 * DAY - 1));
    assert_eq!(delete_old_dashboard_activity(&mut s, OWNER, 90, now), 1);
    assert_eq!(get_dashboard_activity(&s, OWNER, page(None, None)).len(), 1);
}

#[test]
fn retention_sweeps_each_kind_separately() {
    let mut s = Store::new();
    let now = 100 * DAY;
    store_oauth_activity(&mut s, OWNER, app_event(now - 95 * DAY, "a"));
    store_login_activity(&mut s, OWNER, login(now - 95 * DAY));
    assert_eq!(delete_old_oauth_activity(&mut s, OWNER, 90, now), 1);
    // the login event of the same age is untouched
    assert_eq!(get_login_activity(&s, OWNER, page(None, None)).len(), 1);
}

#[test]
fn summary_counts_logins_apps_and_visits() {
    let mut s = Store::new();
    let now = 100 * DAY;
    store_login_activity(&mut s, OWNER, login(now - DAY));
    store_login_activity(&mut s, OWNER, login(now - 40 * DAY));
    store_dashboard_activity(&mut s, OWNER, visit(now - DAY));
    store_oauth_activity(&mut s, OWNER, app_event(now - DAY, "a"));
    store_oauth_activity(&mut s, OWNER, app_event(now - 2 * DAY, "b"));
    store_oauth_activity(&mut s, OWNER, app_event(now - 3 * DAY, "a"));
    let got = get_activity_summary(&s, OWNER, now);
    assert_eq!(
        got,
        ActivitySummary {
            total_logins: 2,
            logins_last_30_days: 1,
            unique_apps_used: 2,
            dashboard_visits: 1,
            last_login: Some(now - DAY),
        }
    );
}

#[test]
fn summary_of_an_empty_log_is_all_zero() {
    let s = Store::new();
    let got = get_activity_summary(&s, OWNER, 100 * DAY);
    assert_eq!(
        got,
        ActivitySummary {
            total_logins: 0,
            logins_last_30_days: 0,
            unique_apps_used: 0,
            dashboard_visits: 0,
            last_login: None,
        }
    );
}
