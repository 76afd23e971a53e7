//! The migration codec: point-in-time export and re-import of one owner's
//! full record set.
//!
//! Export resolves the current head of every kind — singletons as optional
//! values, multi-instance kinds as full resolved lists — and tags the
//! bundle with the registry's schema version.  Import re-invokes the
//! equivalent create operation per present field against the current
//! registry, never raw-copying storage state; a kind absent from an older
//! bundle is synthesized with documented defaults.  Import is not
//! transactional: a kind that fails leaves the kinds already imported
//! committed, and the report says which kind failed.

use vstd::prelude::*;
use crate::store::{created, Edge, Store, StoredEntry};
use crate::resolve::chain_ok;
use crate::types::{as_recovery_phrase, as_session, as_user_profile, as_privacy_settings,
    kind_of_link, link_of_kind, payload_kind, DashboardActivity, EmailPermission, EntryTypes, Error,
    LinkTypes, LoginActivity, OAuthActivity, PrivacySettings, RecordKind, RecoveryPhrase, Session,
    UserProfile};
use crate::lifecycle::{best_phrase_edge, create_default_privacy_settings, default_privacy_settings,
    get_my_sessions, get_privacy_settings, get_recovery_phrase, get_user_profile,
    store_recovery_phrase, store_session, store_user_profile};
use crate::permissions::{get_email_permissions, resolved_permissions};
use crate::activity::{store_dashboard_activity, store_login_activity, store_oauth_activity};

verus! {

/// The schema version tag of this registry.
pub open spec fn schema_version() -> Seq<char> {
    "1.6"@
}

/// A versioned, point-in-time snapshot of one owner's resolved records:
/// heads only, not full history.
pub struct ExportedData {
    pub user_profile: Option<UserProfile>,
    pub recovery_phrase: Option<RecoveryPhrase>,
    pub sessions: Vec<Session>,
    pub email_permissions: Vec<EmailPermission>,
    pub login_activities: Vec<LoginActivity>,
    pub dashboard_activities: Vec<DashboardActivity>,
    pub oauth_activities: Vec<OAuthActivity>,
    pub privacy_settings: Option<PrivacySettings>,
    pub export_timestamp: i64,
    pub dna_version: String,
}

/// What import did for each kind that needed more than a plain create.
pub struct ImportReport {
    /// Kinds the bundle lacks although the current registry expects them,
    /// reported as `MigrationFieldMissing` and filled with documented
    /// defaults rather than left uninitialized — not fatal.
    pub missing: Vec<(RecordKind, Error)>,
    /// Kinds whose import failed, with the error; the others stay
    /// committed.
    pub failed: Vec<(RecordKind, Error)>,
}

/// The bundle `data` is a faithful snapshot of owner's records in `s`:
/// each singleton field holds the resolved head when one is reachable,
/// and each list field holds the full resolved list in insertion order.
pub open spec fn exported(s: Store, owner: u64, data: ExportedData) -> bool {
    let pk = s.first_edge_idx(owner, LinkTypes::AgentToProfile);
    let vb = best_phrase_edge(s, owner);
    let vk = s.first_edge_idx(owner, LinkTypes::AgentToPrivacySettings);
    let sess = s.live_edges(owner, LinkTypes::AgentToSessions);
    let logs = s.live_edges(owner, LinkTypes::AgentToLoginActivity);
    let dash = s.live_edges(owner, LinkTypes::AgentToDashboardActivity);
    let oau = s.live_edges(owner, LinkTypes::AgentToOAuthActivity);
    &&& data.user_profile == (if pk != -1 && chain_ok(s, s.edge_target(pk)) {
        Option::Some(as_user_profile(crate::resolve::head_payload(s, s.edge_target(pk))))
    } else {
        Option::<UserProfile>::None
    })
    &&& data.recovery_phrase == (if vb != -1 {
        Option::Some(as_recovery_phrase(s.target_payload(vb)))
    } else {
        Option::<RecoveryPhrase>::None
    })
    &&& data.sessions@.len() == sess.len()
    &&& forall|i: int|
        0 <= i < sess.len() ==> #[trigger] data.sessions@[i] == as_session(
            s.target_payload(sess[i]),
        )
    &&& data.email_permissions@ == resolved_permissions(s, owner)
    &&& data.login_activities@.len() == logs.len()
    &&& forall|i: int|
        0 <= i < logs.len() ==> #[trigger] data.login_activities@[i]
            == crate::types::as_login_activity(s.target_payload(logs[i]))
    &&& data.dashboard_activities@.len() == dash.len()
    &&& forall|i: int|
        0 <= i < dash.len() ==> #[trigger] data.dashboard_activities@[i]
            == crate::types::as_dashboard_activity(s.target_payload(dash[i]))
    &&& data.oauth_activities@.len() == oau.len()
    &&& forall|i: int|
        0 <= i < oau.len() ==> #[trigger] data.oauth_activities@[i]
            == crate::types::as_oauth_activity(s.target_payload(oau[i]))
    &&& data.privacy_settings == (if vk != -1 && chain_ok(s, s.edge_target(vk)) {
        Option::Some(as_privacy_settings(crate::resolve::head_payload(s, s.edge_target(vk))))
    } else {
        Option::<PrivacySettings>::None
    })
}

/// Collects every reachable login event of the owner, in insertion order.
fn collect_login_activities(s: &Store, owner: u64) -> (r: Vec<LoginActivity>)
    requires
        s.wf(),
    ensures
        r@.len() == s.live_edges(owner, LinkTypes::AgentToLoginActivity).len(),
        forall|i: int|
            0 <= i < r@.len() ==> #[trigger] r@[i] == crate::types::as_login_activity(
                s.target_payload(s.live_edges(owner, LinkTypes::AgentToLoginActivity)[i]),
            ),
{
    let n = s.edges.len();
    let mut r: Vec<LoginActivity> = Vec::new();
    let mut k: usize = 0;
    while k < n
        invariant
            s.wf(),
            n == s.edges@.len(),
            k <= n,
            r@.len() == s.live_edges_upto(owner, LinkTypes::AgentToLoginActivity, k as int).len(),
            forall|i: int|
                0 <= i < r@.len() ==> #[trigger] r@[i] == crate::types::as_login_activity(
                    s.target_payload(
                        s.live_edges_upto(owner, LinkTypes::AgentToLoginActivity, k as int)[i],
                    ),
                ),
        decreases n - k,
    {
        let e = &s.edges[k];
        if e.live && e.base == owner && e.link == LinkTypes::AgentToLoginActivity {
            proof {
                assert(s.edge_ok(k as int));
            }
            match &s.entries[e.target].payload {
                EntryTypes::LoginActivity(a) => r.push(a.clone()),
                _ => {
                    proof {
                        assert(false);
                    }
                },
            }
        }
        k = k + 1;
    }
    r
}

/// Collects every reachable dashboard visit of the owner, in insertion
/// order.
fn collect_dashboard_activities(s: &Store, owner: u64) -> (r: Vec<DashboardActivity>)
    requires
        s.wf(),
    ensures
        r@.len() == s.live_edges(owner, LinkTypes::AgentToDashboardActivity).len(),
        forall|i: int|
            0 <= i < r@.len() ==> #[trigger] r@[i] == crate::types::as_dashboard_activity(
                s.target_payload(s.live_edges(owner, LinkTypes::AgentToDashboardActivity)[i]),
            ),
{
    let n = s.edges.len();
    let mut r: Vec<DashboardActivity> = Vec::new();
    let mut k: usize = 0;
    while k < n
        invariant
            s.wf(),
            n == s.edges@.len(),
            k <= n,
            r@.len() == s.live_edges_upto(
                owner,
                LinkTypes::AgentToDashboardActivity,
                k as int,
            ).len(),
            forall|i: int|
                0 <= i < r@.len() ==> #[trigger] r@[i] == crate::types::as_dashboard_activity(
                    s.target_payload(
                        s.live_edges_upto(owner, LinkTypes::AgentToDashboardActivity, k as int)[i],
                    ),
                ),
        decreases n - k,
    {
        let e = &s.edges[k];
        if e.live && e.base == owner && e.link == LinkTypes::AgentToDashboardActivity {
            proof {
                assert(s.edge_ok(k as int));
            }
            match &s.entries[e.target].payload {
                EntryTypes::DashboardActivity(a) => r.push(a.clone()),
                _ => {
                    proof {
                        assert(false);
                    }
                },
            }
        }
        k = k + 1;
    }
    r
}

/// Collects every reachable third-party event of the owner, in insertion
/// order.
fn collect_oauth_activities(s: &Store, owner: u64) -> (r: Vec<OAuthActivity>)
    requires
        s.wf(),
    ensures
        r@.len() == s.live_edges(owner, LinkTypes::AgentToOAuthActivity).len(),
        forall|i: int|
            0 <= i < r@.len() ==> #[trigger] r@[i] == crate::types::as_oauth_activity(
                s.target_payload(s.live_edges(owner, LinkTypes::AgentToOAuthActivity)[i]),
            ),
{
    let n = s.edges.len();
    let mut r: Vec<OAuthActivity> = Vec::new();
    let mut k: usize = 0;
    while k < n
        invariant
            s.wf(),
            n == s.edges@.len(),
            k <= n,
            r@.len() == s.live_edges_upto(owner, LinkTypes::AgentToOAuthActivity, k as int).len(),
            forall|i: int|
                0 <= i < r@.len() ==> #[trigger] r@[i] == crate::types::as_oauth_activity(
                    s.target_payload(
                        s.live_edges_upto(owner, LinkTypes::AgentToOAuthActivity, k as int)[i],
                    ),
                ),
        decreases n - k,
    {
        let e = &s.edges[k];
        if e.live && e.base == owner && e.link == LinkTypes::AgentToOAuthActivity {
            proof {
                assert(s.edge_ok(k as int));
            }
            match &s.entries[e.target].payload {
                EntryTypes::OAuthActivity(a) => r.push(a.clone()),
                _ => {
                    proof {
                        assert(false);
                    }
                },
            }
        }
        k = k + 1;
    }
    r
}

/// Exports every record kind of the owner into one bundle tagged with the
/// schema version and `now`.  A singleton whose chain cannot be resolved
/// is exported as absent, and the second component reports it: export
/// aborts per kind, never silently conflating a broken chain with
/// absence.
pub fn export_all_data(s: &Store, owner: u64, now: i64) -> (r: (ExportedData, Vec<RecordKind>))
    requires
        s.wf(),
    ensures
        exported(*s, owner, r.0),
        r.0.export_timestamp == now,
        r.0.dna_version@ == schema_version(),
        ({
            let pk = s.first_edge_idx(owner, LinkTypes::AgentToProfile);
            let vk = s.first_edge_idx(owner, LinkTypes::AgentToPrivacySettings);
            r.1@ == (if pk != -1 && !chain_ok(*s, s.edge_target(pk)) {
                seq![RecordKind::Profile]
            } else {
                Seq::<RecordKind>::empty()
            }) + (if vk != -1 && !chain_ok(*s, s.edge_target(vk)) {
                seq![RecordKind::PrivacySettings]
            } else {
                Seq::<RecordKind>::empty()
            })
        }),
{
    let mut failed: Vec<RecordKind> = Vec::new();
    let user_profile = match get_user_profile(s, owner) {
        Result::Ok(p) => p,
        Result::Err(_) => {
            failed.push(RecordKind::Profile);
            Option::None
        },
    };
    let recovery_phrase = get_recovery_phrase(s, owner);
    let sessions = get_my_sessions(s, owner);
    let email_permissions = get_email_permissions(s, owner);
    let login_activities = collect_login_activities(s, owner);
    let dashboard_activities = collect_dashboard_activities(s, owner);
    let oauth_activities = collect_oauth_activities(s, owner);
    let privacy_settings = match get_privacy_settings(s, owner) {
        Result::Ok(p) => p,
        Result::Err(_) => {
            failed.push(RecordKind::PrivacySettings);
            Option::None
        },
    };
    let data = ExportedData {
        user_profile,
        recovery_phrase,
        sessions,
        email_permissions,
        login_activities,
        dashboard_activities,
        oauth_activities,
        privacy_settings,
        export_timestamp: now,
        dna_version: String::from_str("1.6"),
    };
    proof {
        assert(failed@ == (if s.first_edge_idx(owner, LinkTypes::AgentToProfile) != -1 && !chain_ok(
            *s,
            s.edge_target(s.first_edge_idx(owner, LinkTypes::AgentToProfile)),
        ) {
            seq![RecordKind::Profile]
        } else {
            Seq::<RecordKind>::empty()
        }) + (if s.first_edge_idx(owner, LinkTypes::AgentToPrivacySettings) != -1 && !chain_ok(
            *s,
            s.edge_target(s.first_edge_idx(owner, LinkTypes::AgentToPrivacySettings)),
        ) {
            seq![RecordKind::PrivacySettings]
        } else {
            Seq::<RecordKind>::empty()
        }));
    }
    (data, failed)
}

} // verus!

verus! {

/// A payload sequence wrapped into fresh, undeleted entries of one owner.
pub open spec fn entries_wrapped(owner: u64, ps: Seq<EntryTypes>) -> Seq<StoredEntry> {
    ps.map_values(|p: EntryTypes| StoredEntry { payload: p, author: owner, deleted: false })
}

/// `cur` is `pre` plus, in order, one created record per payload of `ps`:
/// entries appended with empty successor lists, and one live edge per
/// entry under the link type of its kind.
pub open spec fn import_step(pre: Store, cur: Store, owner: u64, ps: Seq<EntryTypes>) -> bool {
    &&& cur.entries@ == pre.entries@ + entries_wrapped(owner, ps)
    &&& cur.succs@.len() == pre.succs@.len() + ps.len()
    &&& forall|i: int| 0 <= i < pre.succs@.len() ==> cur.succs@[i] == #[trigger] pre.succs@[i]
    &&& forall|i: int|
        pre.succs@.len() <= i < cur.succs@.len() ==> (#[trigger] cur.succs@[i])@
            == Seq::<usize>::empty()
    &&& cur.edges@.len() == pre.edges@.len() + ps.len()
    &&& forall|j: int| 0 <= j < pre.edges@.len() ==> cur.edges@[j] == #[trigger] pre.edges@[j]
    &&& forall|j: int|
        pre.edges@.len() <= j < cur.edges@.len() ==> #[trigger] cur.edges@[j] == (Edge {
            base: owner,
            link: link_of_kind(payload_kind(ps[j - pre.edges@.len()])),
            target: (pre.entries@.len() + j - pre.edges@.len()) as usize,
            live: true,
        })
}

/// One more created record extends an import in progress by one payload.
proof fn lemma_import_step(pre: Store, cur: Store, next: Store, owner: u64, ps: Seq<EntryTypes>, p: EntryTypes)
    requires
        import_step(pre, cur, owner, ps),
        created(cur, next, owner, p, cur.entries@.len() as int),
    ensures
        import_step(pre, next, owner, ps.push(p)),
{
    assert(cur.entries.len() == cur.entries@.len());
    let w = StoredEntry { payload: p, author: owner, deleted: false };
    assert(entries_wrapped(owner, ps.push(p)) =~= entries_wrapped(owner, ps).push(w));
    assert(next.entries@ =~= pre.entries@ + entries_wrapped(owner, ps.push(p)));
    assert(next.succs@.len() == pre.succs@.len() + ps.push(p).len());
    assert forall|i: int| 0 <= i < pre.succs@.len() implies next.succs@[i] == #[trigger] pre.succs@[
        i
    ] by {
        assert(next.succs@[i] == cur.succs@[i]);
    }
    assert forall|i: int|
        pre.succs@.len() <= i < next.succs@.len() implies (#[trigger] next.succs@[i])@
            == Seq::<usize>::empty() by {
        if i < cur.succs@.len() {
            assert(next.succs@[i] == cur.succs@[i]);
        }
    }
    let e = Edge {
        base: owner,
        link: link_of_kind(payload_kind(p)),
        target: cur.entries@.len() as usize,
        live: true,
    };
    assert(next.edges@ == cur.edges@.push(e));
    assert forall|j: int|
        pre.edges@.len() <= j < next.edges@.len() implies #[trigger] next.edges@[j] == (Edge {
            base: owner,
            link: link_of_kind(payload_kind(ps.push(p)[j - pre.edges@.len()])),
            target: (pre.entries@.len() + j - pre.edges@.len()) as usize,
            live: true,
        }) by {
        if j < cur.edges@.len() {
            assert(next.edges@[j] == cur.edges@[j]);
            assert(ps.push(p)[j - pre.edges@.len()] == ps[j - pre.edges@.len()]);
        } else {
            assert(j == cur.edges@.len());
            assert(next.edges@[j] == e);
            assert(ps.push(p)[j - pre.edges@.len()] == p);
        }
    }
}

/// Appending edges that do not match `(owner, lt)` leaves the first
/// matching edge unchanged.
pub proof fn lemma_first_edge_append(s1: Store, s2: Store, owner: u64, lt: LinkTypes)
    requires
        s1.edges@.len() <= s2.edges@.len(),
        forall|k: int| 0 <= k < s1.edges@.len() ==> #[trigger] s2.edges@[k] == s1.edges@[k],
        forall|k: int|
            s1.edges@.len() <= k < s2.edges@.len() ==> !s2.edge_matches(k, owner, lt),
    ensures
        s2.first_edge_idx(owner, lt) == s1.first_edge_idx(owner, lt),
{
    lemma_first_edge_prefix_eq(s1, s2, owner, lt, s1.edges@.len() as int);
    lemma_first_edge_ext(s2, owner, lt, s1.edges@.len() as int, s2.edges@.len() as int);
}

/// Over a shared prefix of the edge table, the first-match scan agrees.
proof fn lemma_first_edge_prefix_eq(s1: Store, s2: Store, owner: u64, lt: LinkTypes, n: int)
    requires
        0 <= n <= s1.edges@.len(),
        n <= s2.edges@.len(),
        forall|k: int| 0 <= k < n ==> #[trigger] s2.edges@[k] == s1.edges@[k],
    ensures
        s2.first_edge_upto(owner, lt, n) == s1.first_edge_upto(owner, lt, n),
    decreases n,
{
    if n > 0 {
        lemma_first_edge_prefix_eq(s1, s2, owner, lt, n - 1);
    }
}

/// Scanning on across non-matching slots does not move the first match.
proof fn lemma_first_edge_ext(s: Store, owner: u64, lt: LinkTypes, m: int, n: int)
    requires
        0 <= m <= n <= s.edges@.len(),
        forall|k: int| m <= k < n ==> !s.edge_matches(k, owner, lt),
    ensures
        s.first_edge_upto(owner, lt, n) == s.first_edge_upto(owner, lt, m),
    decreases n - m,
{
    if m < n {
        lemma_first_edge_ext(s, owner, lt, m + 1, n);
        assert forall|k: int| m <= k < m + 1 implies !s.edge_matches(k, owner, lt) by {}
        lemma_first_edge_ext_one(s, owner, lt, m);
        assert(s.first_edge_upto(owner, lt, m + 1) == s.first_edge_upto(owner, lt, m));
    }
}

/// One non-matching slot does not move the first match.
proof fn lemma_first_edge_ext_one(s: Store, owner: u64, lt: LinkTypes, m: int)
    requires
        0 <= m,
        !s.edge_matches(m, owner, lt),
    ensures
        s.first_edge_upto(owner, lt, m + 1) == s.first_edge_upto(owner, lt, m),
{
}

/// The profile segment of an imported bundle.
pub open spec fn profile_seg(data: ExportedData) -> Seq<EntryTypes> {
    match data.user_profile {
        Option::Some(p) => seq![EntryTypes::UserProfile(p)],
        Option::None => Seq::empty(),
    }
}

/// The recovery-phrase segment of an imported bundle.
pub open spec fn phrase_seg(data: ExportedData) -> Seq<EntryTypes> {
    match data.recovery_phrase {
        Option::Some(p) => seq![EntryTypes::RecoveryPhrase(p)],
        Option::None => Seq::empty(),
    }
}

/// The privacy segment of an imported bundle: the bundle's settings when
/// present; the documented defaults when the bundle predates the kind and
/// the owner has none yet; nothing when defaulting fails on existing
/// settings.
pub open spec fn privacy_seg(pre: Store, owner: u64, data: ExportedData, now: i64) -> Seq<
    EntryTypes,
> {
    match data.privacy_settings {
        Option::Some(p) => seq![EntryTypes::PrivacySettings(p)],
        Option::None => {
            if pre.first_edge_idx(owner, LinkTypes::AgentToPrivacySettings) == -1 {
                seq![EntryTypes::PrivacySettings(default_privacy_settings(now))]
            } else {
                Seq::empty()
            }
        },
    }
}

/// Every payload an import of `data` into `pre` stores, in order.
pub open spec fn import_payloads(pre: Store, owner: u64, data: ExportedData, now: i64) -> Seq<
    EntryTypes,
> {
    profile_seg(data) + phrase_seg(data) + data.sessions@.map_values(
        |x: Session| EntryTypes::Session(x),
    ) + data.email_permissions@.map_values(|x: EmailPermission| EntryTypes::EmailPermission(x))
        + data.login_activities@.map_values(|x: LoginActivity| EntryTypes::LoginActivity(x))
        + data.dashboard_activities@.map_values(
        |x: DashboardActivity| EntryTypes::DashboardActivity(x),
    ) + data.oauth_activities@.map_values(|x: OAuthActivity| EntryTypes::OAuthActivity(x))
        + privacy_seg(pre, owner, data, now)
}

/// Transition relation of [`import_data`]: the store grows by exactly one
/// created record per payload of [`import_payloads`], in order.
pub open spec fn imported(pre: Store, post: Store, owner: u64, data: ExportedData, now: i64) -> bool {
    import_step(pre, post, owner, import_payloads(pre, owner, data, now))
}

/// Imports a bundle: re-invokes the equivalent create operation for every
/// present field against the current registry, so an import into a newer
/// schema exercises the same validation and edge creation as organic
/// writes.  A bundle without privacy settings has defaults synthesized
/// rather than being left uninitialized.  Per-kind failures leave the
/// already-imported kinds committed and are listed in the report.
#[verifier::rlimit(100)]
pub fn import_data(s: &mut Store, owner: u64, data: ExportedData, now: i64) -> (r: ImportReport)
    requires
        old(s).wf(),
        old(s).entries@.len() + data.sessions@.len() + data.email_permissions@.len()
            + data.login_activities@.len() + data.dashboard_activities@.len()
            + data.oauth_activities@.len() + 3 < usize::MAX,
    ensures
        final(s).wf(),
        imported(*old(s), *final(s), owner, data, now),
        ({
            let missing = (data.privacy_settings is None);
            let dup = (data.privacy_settings is None && old(s).first_edge_idx(
                owner,
                LinkTypes::AgentToPrivacySettings,
            ) != -1);
            &&& r.missing@ == (if missing {
                seq![(RecordKind::PrivacySettings, Error::MigrationFieldMissing)]
            } else {
                Seq::<(RecordKind, Error)>::empty()
            })
            &&& r.failed@ == (if dup {
                seq![(RecordKind::PrivacySettings, Error::DuplicateState)]
            } else {
                Seq::<(RecordKind, Error)>::empty()
            })
        }),
{
    let ghost pre = *old(s);
    let ExportedData {
        user_profile,
        recovery_phrase,
        sessions,
        email_permissions,
        login_activities,
        dashboard_activities,
        oauth_activities,
        privacy_settings,
        export_timestamp: _,
        dna_version: _,
    } = data;
    let ghost mut gps: Seq<EntryTypes> = Seq::empty();
    proof {
        assert(entries_wrapped(owner, gps) =~= Seq::empty());
        assert(pre.entries@ + entries_wrapped(owner, gps) =~= pre.entries@);
        assert(import_step(pre, *s, owner, gps));
    }
    if let Option::Some(p) = user_profile {
        let ghost cur = *s;
        store_user_profile(s, owner, p);
        proof {
            lemma_import_step(pre, cur, *s, owner, gps, EntryTypes::UserProfile(p));
            gps = gps.push(EntryTypes::UserProfile(p));
        }
    }
    if let Option::Some(p) = recovery_phrase {
        let ghost cur = *s;
        store_recovery_phrase(s, owner, p);
        proof {
            lemma_import_step(pre, cur, *s, owner, gps, EntryTypes::RecoveryPhrase(p));
            gps = gps.push(EntryTypes::RecoveryPhrase(p));
        }
    }
    let ghost seg0 = gps;
    proof {
        assert(seg0 =~= profile_seg(data) + phrase_seg(data));
    }
    let ns = sessions.len();
    let mut i: usize = 0;
    while i < ns
        invariant
            ns == sessions@.len(),
            i <= ns,
            s.wf(),
            pre.entries@.len() + ns + email_permissions@.len() + login_activities@.len()
                + dashboard_activities@.len() + oauth_activities@.len() + 3 < usize::MAX,
            gps.len() <= 2 + i as int,
            gps == seg0 + sessions@.take(i as int).map_values(
                |x: Session| EntryTypes::Session(x),
            ),
            seg0.len() <= 2,
            import_step(pre, *s, owner, gps),
        decreases ns - i,
    {
        let ghost cur = *s;
        let item = sessions[i].clone();
        store_session(s, owner, item);
        proof {
            lemma_import_step(pre, cur, *s, owner, gps, EntryTypes::Session(sessions@[i as int]));
            gps = gps.push(EntryTypes::Session(sessions@[i as int]));
            assert(sessions@.take(i as int + 1).map_values(|x: Session| EntryTypes::Session(x))
                =~= sessions@.take(i as int).map_values(|x: Session| EntryTypes::Session(x)).push(
                EntryTypes::Session(sessions@[i as int]),
            ));
            assert(gps =~= seg0 + sessions@.take(i as int + 1).map_values(
                |x: Session| EntryTypes::Session(x),
            ));
        }
        i = i + 1;
    }
    proof {
        assert(sessions@.take(ns as int) =~= sessions@);
    }
    let ghost seg1 = gps;
    let np = email_permissions.len();
    let mut i2: usize = 0;
    while i2 < np
        invariant
            np == email_permissions@.len(),
            i2 <= np,
            s.wf(),
            pre.entries@.len() + sessions@.len() + np + login_activities@.len()
                + dashboard_activities@.len() + oauth_activities@.len() + 3 < usize::MAX,
            seg1.len() <= 2 + sessions@.len(),
            gps.len() == seg1.len() + i2 as int,
            gps == seg1 + email_permissions@.take(i2 as int).map_values(
                |x: EmailPermission| EntryTypes::EmailPermission(x),
            ),
            import_step(pre, *s, owner, gps),
        decreases np - i2,
    {
        let ghost cur = *s;
        let item = email_permissions[i2].clone();
        let _ = s.create_record(owner, EntryTypes::EmailPermission(item));
        proof {
            lemma_import_step(
                pre,
                cur,
                *s,
                owner,
                gps,
                EntryTypes::EmailPermission(email_permissions@[i2 as int]),
            );
            gps = gps.push(EntryTypes::EmailPermission(email_permissions@[i2 as int]));
            assert(email_permissions@.take(i2 as int + 1).map_values(
                |x: EmailPermission| EntryTypes::EmailPermission(x),
            ) =~= email_permissions@.take(i2 as int).map_values(
                |x: EmailPermission| EntryTypes::EmailPermission(x),
            ).push(EntryTypes::EmailPermission(email_permissions@[i2 as int])));
            assert(gps =~= seg1 + email_permissions@.take(i2 as int + 1).map_values(
                |x: EmailPermission| EntryTypes::EmailPermission(x),
            ));
        }
        i2 = i2 + 1;
    }
    proof {
        assert(email_permissions@.take(np as int) =~= email_permissions@);
    }
    let ghost seg2 = gps;
    let nl = login_activities.len();
    let mut i3: usize = 0;
    while i3 < nl
        invariant
            nl == login_activities@.len(),
            i3 <= nl,
            s.wf(),
            pre.entries@.len() + sessions@.len() + email_permissions@.len() + nl
                + dashboard_activities@.len() + oauth_activities@.len() + 3 < usize::MAX,
            seg2.len() <= 2 + sessions@.len() + email_permissions@.len(),
            gps.len() == seg2.len() + i3 as int,
            gps == seg2 + login_activities@.take(i3 as int).map_values(
                |x: LoginActivity| EntryTypes::LoginActivity(x),
            ),
            import_step(pre, *s, owner, gps),
        decreases nl - i3,
    {
        let ghost cur = *s;
        let item = login_activities[i3].clone();
        store_login_activity(s, owner, item);
        proof {
            lemma_import_step(
                pre,
                cur,
                *s,
                owner,
                gps,
                EntryTypes::LoginActivity(login_activities@[i3 as int]),
            );
            gps = gps.push(EntryTypes::LoginActivity(login_activities@[i3 as int]));
            assert(login_activities@.take(i3 as int + 1).map_values(
                |x: LoginActivity| EntryTypes::LoginActivity(x),
            ) =~= login_activities@.take(i3 as int).map_values(
                |x: LoginActivity| EntryTypes::LoginActivity(x),
            ).push(EntryTypes::LoginActivity(login_activities@[i3 as int])));
            assert(gps =~= seg2 + login_activities@.take(i3 as int + 1).map_values(
                |x: LoginActivity| EntryTypes::LoginActivity(x),
            ));
        }
        i3 = i3 + 1;
    }
    proof {
        assert(login_activities@.take(nl as int) =~= login_activities@);
    }
    let ghost seg3 = gps;
    let nd = dashboard_activities.len();
    let mut i4: usize = 0;
    while i4 < nd
        invariant
            nd == dashboard_activities@.len(),
            i4 <= nd,
            s.wf(),
            pre.entries@.len() + sessions@.len() + email_permissions@.len()
                + login_activities@.len() + nd + oauth_activities@.len() + 3 < usize::MAX,
            seg3.len() <= 2 + sessions@.len() + email_permissions@.len()
                + login_activities@.len(),
            gps.len() == seg3.len() + i4 as int,
            gps == seg3 + dashboard_activities@.take(i4 as int).map_values(
                |x: DashboardActivity| EntryTypes::DashboardActivity(x),
            ),
            import_step(pre, *s, owner, gps),
        decreases nd - i4,
    {
        let ghost cur = *s;
        let item = dashboard_activities[i4].clone();
        store_dashboard_activity(s, owner, item);
        proof {
            lemma_import_step(
                pre,
                cur,
                *s,
                owner,
                gps,
                EntryTypes::DashboardActivity(dashboard_activities@[i4 as int]),
            );
            gps = gps.push(EntryTypes::DashboardActivity(dashboard_activities@[i4 as int]));
            assert(dashboard_activities@.take(i4 as int + 1).map_values(
                |x: DashboardActivity| EntryTypes::DashboardActivity(x),
            ) =~= dashboard_activities@.take(i4 as int).map_values(
                |x: DashboardActivity| EntryTypes::DashboardActivity(x),
            ).push(EntryTypes::DashboardActivity(dashboard_activities@[i4 as int])));
            assert(gps =~= seg3 + dashboard_activities@.take(i4 as int + 1).map_values(
                |x: DashboardActivity| EntryTypes::DashboardActivity(x),
            ));
        }
        i4 = i4 + 1;
    }
    proof {
        assert(dashboard_activities@.take(nd as int) =~= dashboard_activities@);
    }
    let ghost seg4 = gps;
    let no = oauth_activities.len();
    let mut i5: usize = 0;
    while i5 < no
        invariant
            no == oauth_activities@.len(),
            i5 <= no,
            s.wf(),
            pre.entries@.len() + sessions@.len() + email_permissions@.len()
                + login_activities@.len() + dashboard_activities@.len() + no + 3 < usize::MAX,
            seg4.len() <= 2 + sessions@.len() + email_permissions@.len()
                + login_activities@.len() + dashboard_activities@.len(),
            gps.len() == seg4.len() + i5 as int,
            gps == seg4 + oauth_activities@.take(i5 as int).map_values(
                |x: OAuthActivity| EntryTypes::OAuthActivity(x),
            ),
            import_step(pre, *s, owner, gps),
        decreases no - i5,
    {
        let ghost cur = *s;
        let item = oauth_activities[i5].clone();
        store_oauth_activity(s, owner, item);
        proof {
            lemma_import_step(
                pre,
                cur,
                *s,
                owner,
                gps,
                EntryTypes::OAuthActivity(oauth_activities@[i5 as int]),
            );
            gps = gps.push(EntryTypes::OAuthActivity(oauth_activities@[i5 as int]));
            assert(oauth_activities@.take(i5 as int + 1).map_values(
                |x: OAuthActivity| EntryTypes::OAuthActivity(x),
            ) =~= oauth_activities@.take(i5 as int).map_values(
                |x: OAuthActivity| EntryTypes::OAuthActivity(x),
            ).push(EntryTypes::OAuthActivity(oauth_activities@[i5 as int])));
            assert(gps =~= seg4 + oauth_activities@.take(i5 as int + 1).map_values(
                |x: OAuthActivity| EntryTypes::OAuthActivity(x),
            ));
        }
        i5 = i5 + 1;
    }
    proof {
        assert(oauth_activities@.take(no as int) =~= oauth_activities@);
    }
    let mut missing: Vec<(RecordKind, Error)> = Vec::new();
    let mut failed: Vec<(RecordKind, Error)> = Vec::new();
    if let Option::Some(p) = privacy_settings {
        let ghost cur = *s;
        let _ = s.create_record(owner, EntryTypes::PrivacySettings(p));
        proof {
            lemma_import_step(pre, cur, *s, owner, gps, EntryTypes::PrivacySettings(p));
            gps = gps.push(EntryTypes::PrivacySettings(p));
        }
    } else {
        missing.push((RecordKind::PrivacySettings, Error::MigrationFieldMissing));
        let ghost cur = *s;
        proof {
            assert forall|j: int| 0 <= j < gps.len() implies payload_kind(#[trigger] gps[j])
                != RecordKind::PrivacySettings by {
                lemma_import_kinds(pre, owner, data, gps, j);
            }
            assert forall|k: int|
                pre.edges@.len() <= k < cur.edges@.len() implies !cur.edge_matches(
                k,
                owner,
                LinkTypes::AgentToPrivacySettings,
            ) by {
                assert(cur.edges@[k].link == link_of_kind(
                    payload_kind(gps[k - pre.edges@.len()]),
                ));
            }
            lemma_first_edge_append(pre, cur, owner, LinkTypes::AgentToPrivacySettings);
        }
        match create_default_privacy_settings(s, owner, now) {
            Result::Ok(_) => {
                proof {
                    lemma_import_step(
                        pre,
                        cur,
                        *s,
                        owner,
                        gps,
                        EntryTypes::PrivacySettings(default_privacy_settings(now)),
                    );
                    gps = gps.push(EntryTypes::PrivacySettings(default_privacy_settings(now)));
                }
            },
            Result::Err(e) => {
                failed.push((RecordKind::PrivacySettings, e));
            },
        }
    }
    proof {
        assert(gps =~= import_payloads(pre, owner, data, now));
    }
    ImportReport { missing, failed }
}

/// During an import, every payload stored before the privacy phase is of
/// some other kind.
proof fn lemma_import_kinds(pre: Store, owner: u64, data: ExportedData, gps: Seq<EntryTypes>, j: int)
    requires
        gps == profile_seg(data) + phrase_seg(data) + data.sessions@.map_values(
            |x: Session| EntryTypes::Session(x),
        ) + data.email_permissions@.map_values(
            |x: EmailPermission| EntryTypes::EmailPermission(x),
        ) + data.login_activities@.map_values(|x: LoginActivity| EntryTypes::LoginActivity(x))
            + data.dashboard_activities@.map_values(
            |x: DashboardActivity| EntryTypes::DashboardActivity(x),
        ) + data.oauth_activities@.map_values(|x: OAuthActivity| EntryTypes::OAuthActivity(x)),
        0 <= j < gps.len(),
    ensures
        payload_kind(gps[j]) != RecordKind::PrivacySettings,
{
}

} // verus!

verus! {

/// Shape of an import: each stored payload sits in a fresh, undeleted,
/// successor-less entry reachable through its own live edge, so each
/// imported record resolves to itself.
proof fn lemma_import_step_shape(pre: Store, post: Store, owner: u64, ps: Seq<EntryTypes>)
    requires
        pre.wf(),
        post.wf(),
        import_step(pre, post, owner, ps),
    ensures
        forall|j: int|
            0 <= j < ps.len() ==> {
                let t = pre.entries@.len() + j;
                &&& post.edge_target(pre.edges@.len() + j) == t
                &&& post.entries@[t].payload == #[trigger] ps[j]
                &&& !post.entries@[t].deleted
                &&& crate::resolve::chain_ok(post, t)
                &&& crate::resolve::head_of(post, t) == t
                &&& crate::resolve::head_payload(post, t) == ps[j]
            },
        forall|k: int, lt: LinkTypes|
            pre.edges@.len() <= k < post.edges@.len() ==> (#[trigger] post.edge_matches(
                k,
                owner,
                lt,
            ) <==> link_of_kind(payload_kind(ps[k - pre.edges@.len()])) == lt),
{
    assert(post.entries.len() == post.entries@.len());
    assert forall|j: int| 0 <= j < ps.len() implies {
        let t = pre.entries@.len() + j;
        &&& post.edge_target(pre.edges@.len() + j) == t
        &&& post.entries@[t].payload == #[trigger] ps[j]
        &&& !post.entries@[t].deleted
        &&& crate::resolve::chain_ok(post, t)
        &&& crate::resolve::head_of(post, t) == t
        &&& crate::resolve::head_payload(post, t) == ps[j]
    } by {
        let t = pre.entries@.len() + j;
        assert(post.entries@[t] == entries_wrapped(owner, ps)[j]);
        assert(post.succs@[t]@ == Seq::<usize>::empty());
    }
}

/// The resolved permission instances, when the matching slots are exactly
/// `[a, b)` and each resolves to a known value: the scan lists those
/// values in order.
proof fn lemma_perms_window(
    s: Store,
    owner: u64,
    a: int,
    b: int,
    vals: Seq<EmailPermission>,
    n: int,
)
    requires
        0 <= a <= b,
        vals.len() == b - a,
        0 <= n <= s.edges@.len(),
        forall|k: int|
            0 <= k < s.edges@.len() ==> (s.edge_matches(k, owner, LinkTypes::AgentToEmailPermissions)
                <==> a <= k < b),
        forall|k: int|
            a <= k < b ==> chain_ok(s, s.edge_target(k)) && crate::types::as_email_permission(
                crate::resolve::head_payload(s, s.edge_target(k)),
            ) == vals[k - a],
    ensures
        crate::permissions::perms_upto(s, owner, n) == vals.take(
            if n <= a {
                0
            } else if n >= b {
                b - a
            } else {
                n - a
            },
        ),
    decreases n,
{
    if n == 0 {
        assert(vals.take(0) =~= Seq::empty());
    } else {
        lemma_perms_window(s, owner, a, b, vals, n - 1);
        let c = if n <= a {
            0
        } else if n >= b {
            b - a
        } else {
            n - a
        };
        let cp = if n - 1 <= a {
            0
        } else if n - 1 >= b {
            b - a
        } else {
            n - 1 - a
        };
        if a <= n - 1 < b {
            assert(crate::permissions::perms_upto(s, owner, n) == vals.take(cp).push(
                vals[n - 1 - a],
            ));
            assert(vals.take(c) =~= vals.take(cp).push(vals[n - 1 - a]));
        } else {
            assert(c == cp);
        }
    }
}

} // verus!

verus! {

/// Where the recovery-phrase segment of a bundle's payloads begins.
pub open spec fn off_phrase(data: ExportedData) -> int {
    profile_seg(data).len() as int
}

/// Where the session segment begins.
pub open spec fn off_sessions(data: ExportedData) -> int {
    off_phrase(data) + phrase_seg(data).len()
}

/// Where the permission segment begins.
pub open spec fn off_perms(data: ExportedData) -> int {
    off_sessions(data) + data.sessions@.len()
}

/// Where the login segment begins.
pub open spec fn off_logins(data: ExportedData) -> int {
    off_perms(data) + data.email_permissions@.len()
}

/// Where the dashboard segment begins.
pub open spec fn off_dash(data: ExportedData) -> int {
    off_logins(data) + data.login_activities@.len()
}

/// Where the third-party segment begins.
pub open spec fn off_oauth(data: ExportedData) -> int {
    off_dash(data) + data.dashboard_activities@.len()
}

/// Where the privacy segment begins.
pub open spec fn off_priv(data: ExportedData) -> int {
    off_oauth(data) + data.oauth_activities@.len()
}

/// The kind of the payload at position `j` of an import, by segment.
pub open spec fn seg_kind_at(data: ExportedData, j: int) -> RecordKind {
    if j < off_phrase(data) {
        RecordKind::Profile
    } else if j < off_sessions(data) {
        RecordKind::RecoveryPhrase
    } else if j < off_perms(data) {
        RecordKind::Session
    } else if j < off_logins(data) {
        RecordKind::EmailPermission
    } else if j < off_dash(data) {
        RecordKind::LoginActivity
    } else if j < off_oauth(data) {
        RecordKind::DashboardActivity
    } else if j < off_priv(data) {
        RecordKind::OAuthActivity
    } else {
        RecordKind::PrivacySettings
    }
}

/// Index table of an import's payload sequence: each segment holds its
/// bundle field's values, in order, under its kind.
proof fn lemma_import_payload_table(pre: Store, owner: u64, data: ExportedData, now: i64)
    ensures
        ({
            let ps = import_payloads(pre, owner, data, now);
            &&& ps.len() == off_priv(data) + privacy_seg(pre, owner, data, now).len()
            &&& (data.user_profile matches Option::Some(p) ==> off_phrase(data) == 1 && ps[0]
                == EntryTypes::UserProfile(p))
            &&& (data.user_profile is None ==> off_phrase(data) == 0)
            &&& (data.recovery_phrase matches Option::Some(p) ==> ps[off_phrase(data)]
                == EntryTypes::RecoveryPhrase(p))
            &&& (forall|i: int|
                0 <= i < data.sessions@.len() ==> ps[off_sessions(data) + i]
                    == EntryTypes::Session(#[trigger] data.sessions@[i]))
            &&& (forall|i: int|
                0 <= i < data.email_permissions@.len() ==> ps[off_perms(data) + i]
                    == EntryTypes::EmailPermission(#[trigger] data.email_permissions@[i]))
            &&& (forall|i: int|
                0 <= i < data.login_activities@.len() ==> ps[off_logins(data) + i]
                    == EntryTypes::LoginActivity(#[trigger] data.login_activities@[i]))
            &&& (forall|i: int|
                0 <= i < data.dashboard_activities@.len() ==> ps[off_dash(data) + i]
                    == EntryTypes::DashboardActivity(#[trigger] data.dashboard_activities@[i]))
            &&& (forall|i: int|
                0 <= i < data.oauth_activities@.len() ==> ps[off_oauth(data) + i]
                    == EntryTypes::OAuthActivity(#[trigger] data.oauth_activities@[i]))
            &&& (privacy_seg(pre, owner, data, now).len() == 1 ==> ps[off_priv(data)]
                == privacy_seg(pre, owner, data, now)[0])
            &&& (forall|j: int|
                0 <= j < ps.len() ==> payload_kind(#[trigger] ps[j]) == seg_kind_at(data, j))
        }),
{
    let ps = import_payloads(pre, owner, data, now);
    let sc = data.sessions@.map_values(|x: Session| EntryTypes::Session(x));
    let sd = data.email_permissions@.map_values(
        |x: EmailPermission| EntryTypes::EmailPermission(x),
    );
    let se = data.login_activities@.map_values(|x: LoginActivity| EntryTypes::LoginActivity(x));
    let sf = data.dashboard_activities@.map_values(
        |x: DashboardActivity| EntryTypes::DashboardActivity(x),
    );
    let sg = data.oauth_activities@.map_values(|x: OAuthActivity| EntryTypes::OAuthActivity(x));
    let sh = privacy_seg(pre, owner, data, now);
    assert forall|i: int|
        0 <= i < data.sessions@.len() implies ps[off_sessions(data) + i] == EntryTypes::Session(
        #[trigger] data.sessions@[i],
    ) by {
        assert(ps[off_sessions(data) + i] == sc[i]);
    }
    assert forall|i: int|
        0 <= i < data.email_permissions@.len() implies ps[off_perms(data) + i]
        == EntryTypes::EmailPermission(#[trigger] data.email_permissions@[i]) by {
        assert(ps[off_perms(data) + i] == sd[i]);
    }
    assert forall|i: int|
        0 <= i < data.login_activities@.len() implies ps[off_logins(data) + i]
        == EntryTypes::LoginActivity(#[trigger] data.login_activities@[i]) by {
        assert(ps[off_logins(data) + i] == se[i]);
    }
    assert forall|i: int|
        0 <= i < data.dashboard_activities@.len() implies ps[off_dash(data) + i]
        == EntryTypes::DashboardActivity(#[trigger] data.dashboard_activities@[i]) by {
        assert(ps[off_dash(data) + i] == sf[i]);
    }
    assert forall|i: int|
        0 <= i < data.oauth_activities@.len() implies ps[off_oauth(data) + i]
        == EntryTypes::OAuthActivity(#[trigger] data.oauth_activities@[i]) by {
        assert(ps[off_oauth(data) + i] == sg[i]);
    }
    if sh.len() == 1 {
        assert(ps[off_priv(data)] == sh[0]);
    }
    assert forall|j: int|
        0 <= j < ps.len() implies payload_kind(#[trigger] ps[j]) == seg_kind_at(data, j) by {
        if j < off_sessions(data) {
        } else if j < off_perms(data) {
            assert(ps[j] == sc[j - off_sessions(data)]);
        } else if j < off_logins(data) {
            assert(ps[j] == sd[j - off_perms(data)]);
        } else if j < off_dash(data) {
            assert(ps[j] == se[j - off_logins(data)]);
        } else if j < off_oauth(data) {
            assert(ps[j] == sf[j - off_dash(data)]);
        } else if j < off_priv(data) {
            assert(ps[j] == sg[j - off_oauth(data)]);
        } else {
            assert(ps[j] == sh[j - off_priv(data)]);
        }
    }
}

/// After importing into a store with no live edges of the owner, the live
/// edges of one link type are exactly the slots of its payload segment,
/// in order.
proof fn lemma_import_matches_window(
    pre: Store,
    post: Store,
    owner: u64,
    data: ExportedData,
    now: i64,
    lt: LinkTypes,
    a: int,
    b: int,
)
    requires
        pre.wf(),
        post.wf(),
        forall|k: int|
            0 <= k < pre.edges@.len() && (#[trigger] pre.edges@[k]).live ==> pre.edges@[k].base
                != owner,
        imported(pre, post, owner, data, now),
        0 <= a <= b <= import_payloads(pre, owner, data, now).len(),
        forall|j: int|
            0 <= j < import_payloads(pre, owner, data, now).len() ==> (payload_kind(
                #[trigger] import_payloads(pre, owner, data, now)[j],
            ) == kind_of_link(lt) <==> a <= j < b),
    ensures
        forall|k: int|
            0 <= k < post.edges@.len() ==> (#[trigger] post.edge_matches(k, owner, lt) <==> (
            pre.edges@.len() + a <= k < pre.edges@.len() + b)),
        post.live_edges(owner, lt) =~= Seq::new(
            (b - a) as nat,
            |i: int| pre.edges@.len() + a + i,
        ),
        post.first_edge_idx(owner, lt) == (if a == b {
            -1
        } else {
            pre.edges@.len() + a
        }),
{
    let ps = import_payloads(pre, owner, data, now);
    let offe = pre.edges@.len() as int;
    assert forall|k: int|
        0 <= k < post.edges@.len() implies (#[trigger] post.edge_matches(k, owner, lt) <==> (offe
            + a <= k < offe + b)) by {
        if k < offe {
            assert(post.edges@[k] == pre.edges@[k]);
        } else {
            let j = k - offe;
            assert(post.edges@[k] == (Edge {
                base: owner,
                link: link_of_kind(payload_kind(ps[j])),
                target: (pre.entries@.len() + j) as usize,
                live: true,
            }));
            if payload_kind(ps[j]) == kind_of_link(lt) {
                assert(link_of_kind(payload_kind(ps[j])) == lt);
            } else {
                assert(link_of_kind(payload_kind(ps[j])) != lt);
            }
        }
    }
    post.lemma_live_edges_split(owner, lt, 0, post.edges@.len() as int);
    post.lemma_live_edges_window(owner, lt, 0, post.edges@.len() as int, offe + a, offe + b);
    post.lemma_first_edge_upto(owner, lt, post.edges@.len() as int);
    if a == b {
        assert(post.first_edge_idx(owner, lt) == -1);
    } else {
        assert(post.edge_matches(offe + a, owner, lt));
        let f = post.first_edge_idx(owner, lt);
        assert(f != -1);
        assert(post.edge_matches(f, owner, lt));
        assert(f == offe + a);
    }
}

} // verus!

verus! {

/// A fresh import reproduces the bundle's session list exactly.
proof fn lemma_import_sessions(pre: Store, post: Store, owner: u64, data: ExportedData, now: i64)
    requires
        pre.wf(),
        post.wf(),
        forall|k: int|
            0 <= k < pre.edges@.len() && (#[trigger] pre.edges@[k]).live ==> pre.edges@[k].base
                != owner,
        imported(pre, post, owner, data, now),
    ensures
        ({
            let sl = post.live_edges(owner, LinkTypes::AgentToSessions);
            sl.len() == data.sessions@.len() && (forall|i: int|
                0 <= i < sl.len() ==> as_session(post.target_payload(#[trigger] sl[i]))
                    == data.sessions@[i])
        }),
{
    let ps = import_payloads(pre, owner, data, now);
    let a = off_sessions(data);
    let b = off_perms(data);
    lemma_import_payload_table(pre, owner, data, now);
    lemma_import_step_shape(pre, post, owner, ps);
    assert forall|j: int|
        0 <= j < ps.len() implies (payload_kind(#[trigger] ps[j]) == kind_of_link(
        LinkTypes::AgentToSessions,
    ) <==> a <= j < b) by {}
    lemma_import_matches_window(pre, post, owner, data, now, LinkTypes::AgentToSessions, a, b);
    let sl = post.live_edges(owner, LinkTypes::AgentToSessions);
    assert forall|i: int|
        0 <= i < sl.len() implies as_session(post.target_payload(#[trigger] sl[i]))
        == data.sessions@[i] by {
        assert(sl[i] == pre.edges@.len() + a + i);
        assert(post.edge_target(pre.edges@.len() + (a + i)) == pre.entries@.len() + (a + i));
        assert(post.entries@[pre.entries@.len() + (a + i)].payload == ps[a + i]);
        assert(ps[a + i] == EntryTypes::Session(data.sessions@[i]));
    }
}

/// A fresh import reproduces the bundle's login list exactly.
proof fn lemma_import_logins(pre: Store, post: Store, owner: u64, data: ExportedData, now: i64)
    requires
        pre.wf(),
        post.wf(),
        forall|k: int|
            0 <= k < pre.edges@.len() && (#[trigger] pre.edges@[k]).live ==> pre.edges@[k].base
                != owner,
        imported(pre, post, owner, data, now),
    ensures
        ({
            let sl = post.live_edges(owner, LinkTypes::AgentToLoginActivity);
            sl.len() == data.login_activities@.len() && (forall|i: int|
                0 <= i < sl.len() ==> crate::types::as_login_activity(
                    post.target_payload(#[trigger] sl[i]),
                ) == data.login_activities@[i])
        }),
{
    let ps = import_payloads(pre, owner, data, now);
    let a = off_logins(data);
    let b = off_dash(data);
    lemma_import_payload_table(pre, owner, data, now);
    lemma_import_step_shape(pre, post, owner, ps);
    assert forall|j: int|
        0 <= j < ps.len() implies (payload_kind(#[trigger] ps[j]) == kind_of_link(
        LinkTypes::AgentToLoginActivity,
    ) <==> a <= j < b) by {}
    lemma_import_matches_window(
        pre,
        post,
        owner,
        data,
        now,
        LinkTypes::AgentToLoginActivity,
        a,
        b,
    );
    let sl = post.live_edges(owner, LinkTypes::AgentToLoginActivity);
    assert forall|i: int|
        0 <= i < sl.len() implies crate::types::as_login_activity(
        post.target_payload(#[trigger] sl[i]),
    ) == data.login_activities@[i] by {
        assert(sl[i] == pre.edges@.len() + a + i);
        assert(post.edge_target(pre.edges@.len() + (a + i)) == pre.entries@.len() + (a + i));
        assert(post.entries@[pre.entries@.len() + (a + i)].payload == ps[a + i]);
        assert(ps[a + i] == EntryTypes::LoginActivity(data.login_activities@[i]));
    }
}

/// A fresh import reproduces the bundle's dashboard list exactly.
proof fn lemma_import_dashboards(pre: Store, post: Store, owner: u64, data: ExportedData, now: i64)
    requires
        pre.wf(),
        post.wf(),
        forall|k: int|
            0 <= k < pre.edges@.len() && (#[trigger] pre.edges@[k]).live ==> pre.edges@[k].base
                != owner,
        imported(pre, post, owner, data, now),
    ensures
        ({
            let sl = post.live_edges(owner, LinkTypes::AgentToDashboardActivity);
            sl.len() == data.dashboard_activities@.len() && (forall|i: int|
                0 <= i < sl.len() ==> crate::types::as_dashboard_activity(
                    post.target_payload(#[trigger] sl[i]),
                ) == data.dashboard_activities@[i])
        }),
{
    let ps = import_payloads(pre, owner, data, now);
    let a = off_dash(data);
    let b = off_oauth(data);
    lemma_import_payload_table(pre, owner, data, now);
    lemma_import_step_shape(pre, post, owner, ps);
    assert forall|j: int|
        0 <= j < ps.len() implies (payload_kind(#[trigger] ps[j]) == kind_of_link(
        LinkTypes::AgentToDashboardActivity,
    ) <==> a <= j < b) by {}
    lemma_import_matches_window(
        pre,
        post,
        owner,
        data,
        now,
        LinkTypes::AgentToDashboardActivity,
        a,
        b,
    );
    let sl = post.live_edges(owner, LinkTypes::AgentToDashboardActivity);
    assert forall|i: int|
        0 <= i < sl.len() implies crate::types::as_dashboard_activity(
        post.target_payload(#[trigger] sl[i]),
    ) == data.dashboard_activities@[i] by {
        assert(sl[i] == pre.edges@.len() + a + i);
        assert(post.edge_target(pre.edges@.len() + (a + i)) == pre.entries@.len() + (a + i));
        assert(post.entries@[pre.entries@.len() + (a + i)].payload == ps[a + i]);
        assert(ps[a + i] == EntryTypes::DashboardActivity(data.dashboard_activities@[i]));
    }
}

/// A fresh import reproduces the bundle's third-party list exactly.
proof fn lemma_import_oauths(pre: Store, post: Store, owner: u64, data: ExportedData, now: i64)
    requires
        pre.wf(),
        post.wf(),
        forall|k: int|
            0 <= k < pre.edges@.len() && (#[trigger] pre.edges@[k]).live ==> pre.edges@[k].base
                != owner,
        imported(pre, post, owner, data, now),
    ensures
        ({
            let sl = post.live_edges(owner, LinkTypes::AgentToOAuthActivity);
            sl.len() == data.oauth_activities@.len() && (forall|i: int|
                0 <= i < sl.len() ==> crate::types::as_oauth_activity(
                    post.target_payload(#[trigger] sl[i]),
                ) == data.oauth_activities@[i])
        }),
{
    let ps = import_payloads(pre, owner, data, now);
    let a = off_oauth(data);
    let b = off_priv(data);
    lemma_import_payload_table(pre, owner, data, now);
    lemma_import_step_shape(pre, post, owner, ps);
    assert forall|j: int|
        0 <= j < ps.len() implies (payload_kind(#[trigger] ps[j]) == kind_of_link(
        LinkTypes::AgentToOAuthActivity,
    ) <==> a <= j < b) by {}
    lemma_import_matches_window(
        pre,
        post,
        owner,
        data,
        now,
        LinkTypes::AgentToOAuthActivity,
        a,
        b,
    );
    let sl = post.live_edges(owner, LinkTypes::AgentToOAuthActivity);
    assert forall|i: int|
        0 <= i < sl.len() implies crate::types::as_oauth_activity(
        post.target_payload(#[trigger] sl[i]),
    ) == data.oauth_activities@[i] by {
        assert(sl[i] == pre.edges@.len() + a + i);
        assert(post.edge_target(pre.edges@.len() + (a + i)) == pre.entries@.len() + (a + i));
        assert(post.entries@[pre.entries@.len() + (a + i)].payload == ps[a + i]);
        assert(ps[a + i] == EntryTypes::OAuthActivity(data.oauth_activities@[i]));
    }
}

/// A fresh import reproduces the bundle's permission list exactly.
proof fn lemma_import_perms(pre: Store, post: Store, owner: u64, data: ExportedData, now: i64)
    requires
        pre.wf(),
        post.wf(),
        forall|k: int|
            0 <= k < pre.edges@.len() && (#[trigger] pre.edges@[k]).live ==> pre.edges@[k].base
                != owner,
        imported(pre, post, owner, data, now),
    ensures
        resolved_permissions(post, owner) == data.email_permissions@,
{
    let ps = import_payloads(pre, owner, data, now);
    let a = off_perms(data);
    let b = off_logins(data);
    let offe = pre.edges@.len() as int;
    lemma_import_payload_table(pre, owner, data, now);
    lemma_import_step_shape(pre, post, owner, ps);
    assert forall|j: int|
        0 <= j < ps.len() implies (payload_kind(#[trigger] ps[j]) == kind_of_link(
        LinkTypes::AgentToEmailPermissions,
    ) <==> a <= j < b) by {}
    lemma_import_matches_window(
        pre,
        post,
        owner,
        data,
        now,
        LinkTypes::AgentToEmailPermissions,
        a,
        b,
    );
    assert forall|k: int|
        offe + a <= k < offe + b implies chain_ok(post, post.edge_target(k))
            && crate::types::as_email_permission(
            crate::resolve::head_payload(post, post.edge_target(k)),
        ) == data.email_permissions@[k - (offe + a)] by {
        let j = k - offe;
        assert(post.edge_target(k) == pre.entries@.len() + j);
        assert(crate::resolve::head_payload(post, pre.entries@.len() + j) == ps[j]);
        assert(ps[j] == EntryTypes::EmailPermission(data.email_permissions@[j - a]));
    }
    lemma_perms_window(
        post,
        owner,
        offe + a,
        offe + b,
        data.email_permissions@,
        post.edges@.len() as int,
    );
    assert(data.email_permissions@.take(b - a) =~= data.email_permissions@);
}

/// A fresh import reproduces the bundle's profile (or its absence).
proof fn lemma_import_profile(pre: Store, post: Store, owner: u64, data: ExportedData, now: i64)
    requires
        pre.wf(),
        post.wf(),
        forall|k: int|
            0 <= k < pre.edges@.len() && (#[trigger] pre.edges@[k]).live ==> pre.edges@[k].base
                != owner,
        imported(pre, post, owner, data, now),
    ensures
        ({
            let pk = post.first_edge_idx(owner, LinkTypes::AgentToProfile);
            match data.user_profile {
                Option::Some(p) => pk != -1 && chain_ok(post, post.edge_target(pk))
                    && as_user_profile(crate::resolve::head_payload(post, post.edge_target(pk)))
                    == p,
                Option::None => pk == -1,
            }
        }),
{
    let ps = import_payloads(pre, owner, data, now);
    let b = off_phrase(data);
    lemma_import_payload_table(pre, owner, data, now);
    lemma_import_step_shape(pre, post, owner, ps);
    assert forall|j: int|
        0 <= j < ps.len() implies (payload_kind(#[trigger] ps[j]) == kind_of_link(
        LinkTypes::AgentToProfile,
    ) <==> 0 <= j < b) by {}
    lemma_import_matches_window(pre, post, owner, data, now, LinkTypes::AgentToProfile, 0, b);
    match data.user_profile {
        Option::Some(p) => {
            let pk = post.first_edge_idx(owner, LinkTypes::AgentToProfile);
            assert(pk == pre.edges@.len());
            assert(post.edge_target(pk) == pre.entries@.len() as int);
            assert(crate::resolve::head_payload(post, pre.entries@.len() as int) == ps[0]);
            assert(ps[0] == EntryTypes::UserProfile(p));
        },
        Option::None => {},
    }
}

/// A fresh import reproduces the bundle's recovery phrase (or its
/// absence), and resolution picks it.
proof fn lemma_import_phrase(pre: Store, post: Store, owner: u64, data: ExportedData, now: i64)
    requires
        pre.wf(),
        post.wf(),
        forall|k: int|
            0 <= k < pre.edges@.len() && (#[trigger] pre.edges@[k]).live ==> pre.edges@[k].base
                != owner,
        imported(pre, post, owner, data, now),
    ensures
        ({
            let vb = best_phrase_edge(post, owner);
            match data.recovery_phrase {
                Option::Some(p) => vb != -1 && as_recovery_phrase(post.target_payload(vb)) == p,
                Option::None => vb == -1,
            }
        }),
{
    let ps = import_payloads(pre, owner, data, now);
    let a = off_phrase(data);
    let b = off_sessions(data);
    let offe = pre.edges@.len() as int;
    lemma_import_payload_table(pre, owner, data, now);
    lemma_import_step_shape(pre, post, owner, ps);
    assert forall|j: int|
        0 <= j < ps.len() implies (payload_kind(#[trigger] ps[j]) == kind_of_link(
        LinkTypes::AgentToRecoveryPhrase,
    ) <==> a <= j < b) by {}
    lemma_import_matches_window(
        pre,
        post,
        owner,
        data,
        now,
        LinkTypes::AgentToRecoveryPhrase,
        a,
        b,
    );
    crate::lifecycle::lemma_best_phrase_upto(post, owner, post.edges@.len() as int);
    match data.recovery_phrase {
        Option::Some(p) => {
            assert(post.edge_matches(offe + a, owner, LinkTypes::AgentToRecoveryPhrase));
            let vb = best_phrase_edge(post, owner);
            assert(vb != -1);
            assert(post.edge_matches(vb, owner, LinkTypes::AgentToRecoveryPhrase));
            assert(vb == offe + a);
            assert(post.edge_target(vb) == pre.entries@.len() + a);
            assert(post.entries@[pre.entries@.len() + a].payload == ps[a]);
            assert(ps[a] == EntryTypes::RecoveryPhrase(p));
        },
        Option::None => {
            let vb = best_phrase_edge(post, owner);
            if vb != -1 {
                assert(post.edge_matches(vb, owner, LinkTypes::AgentToRecoveryPhrase));
                assert(false);
            }
        },
    }
}

/// A fresh import reproduces the bundle's privacy settings, or the
/// documented defaults when the bundle predates the kind.
proof fn lemma_import_privacy(pre: Store, post: Store, owner: u64, data: ExportedData, now: i64)
    requires
        pre.wf(),
        post.wf(),
        forall|k: int|
            0 <= k < pre.edges@.len() && (#[trigger] pre.edges@[k]).live ==> pre.edges@[k].base
                != owner,
        imported(pre, post, owner, data, now),
    ensures
        ({
            let vk = post.first_edge_idx(owner, LinkTypes::AgentToPrivacySettings);
            let expected = match data.privacy_settings {
                Option::Some(p) => p,
                Option::None => default_privacy_settings(now),
            };
            vk != -1 && chain_ok(post, post.edge_target(vk)) && as_privacy_settings(
                crate::resolve::head_payload(post, post.edge_target(vk)),
            ) == expected
        }),
{
    let ps = import_payloads(pre, owner, data, now);
    let a = off_priv(data);
    let offe = pre.edges@.len() as int;
    lemma_import_payload_table(pre, owner, data, now);
    lemma_import_step_shape(pre, post, owner, ps);
    pre.lemma_first_edge_upto(owner, LinkTypes::AgentToPrivacySettings, pre.edges@.len() as int);
    assert(pre.first_edge_idx(owner, LinkTypes::AgentToPrivacySettings) == -1);
    let sh = privacy_seg(pre, owner, data, now);
    assert(sh.len() == 1);
    assert forall|j: int|
        0 <= j < ps.len() implies (payload_kind(#[trigger] ps[j]) == kind_of_link(
        LinkTypes::AgentToPrivacySettings,
    ) <==> a <= j < a + 1) by {}
    lemma_import_matches_window(
        pre,
        post,
        owner,
        data,
        now,
        LinkTypes::AgentToPrivacySettings,
        a,
        a + 1,
    );
    let vk = post.first_edge_idx(owner, LinkTypes::AgentToPrivacySettings);
    assert(vk == offe + a);
    assert(post.edge_target(vk) == pre.entries@.len() + a);
    assert(crate::resolve::head_payload(post, pre.entries@.len() + a) == ps[a]);
    assert(ps[a] == sh[0]);
}

/// Importing a bundle for an owner with no prior edges reproduces, for
/// every kind, records that resolve to exactly the bundle's contents:
/// singletons to the bundle's value (privacy settings to the documented
/// default when the bundle predates the kind), multi-instance kinds to
/// the bundle's full lists in order.  Hashes are assigned afresh by the
/// store; the payloads are equal field for field.
pub proof fn lemma_import_fresh_reproduces(
    pre: Store,
    post: Store,
    owner: u64,
    data: ExportedData,
    now: i64,
)
    requires
        pre.wf(),
        post.wf(),
        forall|k: int|
            0 <= k < pre.edges@.len() && (#[trigger] pre.edges@[k]).live ==> pre.edges@[k].base
                != owner,
        imported(pre, post, owner, data, now),
    ensures
        ({
            let pk = post.first_edge_idx(owner, LinkTypes::AgentToProfile);
            match data.user_profile {
                Option::Some(p) => pk != -1 && chain_ok(post, post.edge_target(pk))
                    && as_user_profile(crate::resolve::head_payload(post, post.edge_target(pk)))
                    == p,
                Option::None => pk == -1,
            }
        }),
        ({
            let vb = best_phrase_edge(post, owner);
            match data.recovery_phrase {
                Option::Some(p) => vb != -1 && as_recovery_phrase(post.target_payload(vb)) == p,
                Option::None => vb == -1,
            }
        }),
        ({
            let sl = post.live_edges(owner, LinkTypes::AgentToSessions);
            sl.len() == data.sessions@.len() && (forall|i: int|
                0 <= i < sl.len() ==> as_session(post.target_payload(#[trigger] sl[i]))
                    == data.sessions@[i])
        }),
        resolved_permissions(post, owner) == data.email_permissions@,
        ({
            let sl = post.live_edges(owner, LinkTypes::AgentToLoginActivity);
            sl.len() == data.login_activities@.len() && (forall|i: int|
                0 <= i < sl.len() ==> crate::types::as_login_activity(
                    post.target_payload(#[trigger] sl[i]),
                ) == data.login_activities@[i])
        }),
        ({
            let sl = post.live_edges(owner, LinkTypes::AgentToDashboardActivity);
            sl.len() == data.dashboard_activities@.len() && (forall|i: int|
                0 <= i < sl.len() ==> crate::types::as_dashboard_activity(
                    post.target_payload(#[trigger] sl[i]),
                ) == data.dashboard_activities@[i])
        }),
        ({
            let sl = post.live_edges(owner, LinkTypes::AgentToOAuthActivity);
            sl.len() == data.oauth_activities@.len() && (forall|i: int|
                0 <= i < sl.len() ==> crate::types::as_oauth_activity(
                    post.target_payload(#[trigger] sl[i]),
                ) == data.oauth_activities@[i])
        }),
        ({
            let vk = post.first_edge_idx(owner, LinkTypes::AgentToPrivacySettings);
            let expected = match data.privacy_settings {
                Option::Some(p) => p,
                Option::None => default_privacy_settings(now),
            };
            vk != -1 && chain_ok(post, post.edge_target(vk)) && as_privacy_settings(
                crate::resolve::head_payload(post, post.edge_target(vk)),
            ) == expected
        }),
{
    lemma_import_profile(pre, post, owner, data, now);
    lemma_import_phrase(pre, post, owner, data, now);
    lemma_import_sessions(pre, post, owner, data, now);
    lemma_import_perms(pre, post, owner, data, now);
    lemma_import_logins(pre, post, owner, data, now);
    lemma_import_dashboards(pre, post, owner, data, now);
    lemma_import_oauths(pre, post, owner, data, now);
    lemma_import_privacy(pre, post, owner, data, now);
}

/// The round trip: exporting an owner and importing the bundle into a
/// registry of the identical schema version, fresh for that owner,
/// reproduces for every kind a head whose payload is field-for-field
/// equal to the pre-export head.  Only the storage-assigned hashes
/// differ.
pub proof fn lemma_export_import_round_trip(
    src: Store,
    data: ExportedData,
    pre: Store,
    post: Store,
    owner: u64,
    now: i64,
)
    requires
        src.wf(),
        pre.wf(),
        post.wf(),
        exported(src, owner, data),
        src.first_edge_idx(owner, LinkTypes::AgentToProfile) != -1 ==> chain_ok(
            src,
            src.edge_target(src.first_edge_idx(owner, LinkTypes::AgentToProfile)),
        ),
        src.first_edge_idx(owner, LinkTypes::AgentToPrivacySettings) != -1 ==> chain_ok(
            src,
            src.edge_target(src.first_edge_idx(owner, LinkTypes::AgentToPrivacySettings)),
        ),
        forall|k: int|
            0 <= k < pre.edges@.len() && (#[trigger] pre.edges@[k]).live ==> pre.edges@[k].base
                != owner,
        imported(pre, post, owner, data, now),
    ensures
        ({
            let sk = src.first_edge_idx(owner, LinkTypes::AgentToProfile);
            let pk = post.first_edge_idx(owner, LinkTypes::AgentToProfile);
            sk != -1 ==> pk != -1 && chain_ok(post, post.edge_target(pk)) && as_user_profile(
                crate::resolve::head_payload(post, post.edge_target(pk)),
            ) == as_user_profile(crate::resolve::head_payload(src, src.edge_target(sk)))
        }),
        ({
            let sb = best_phrase_edge(src, owner);
            let vb = best_phrase_edge(post, owner);
            sb != -1 ==> vb != -1 && as_recovery_phrase(post.target_payload(vb))
                == as_recovery_phrase(src.target_payload(sb))
        }),
        ({
            let ss = src.live_edges(owner, LinkTypes::AgentToSessions);
            let sl = post.live_edges(owner, LinkTypes::AgentToSessions);
            sl.len() == ss.len() && (forall|i: int|
                0 <= i < sl.len() ==> as_session(post.target_payload(#[trigger] sl[i]))
                    == as_session(src.target_payload(ss[i])))
        }),
        resolved_permissions(post, owner) == resolved_permissions(src, owner),
        ({
            let ss = src.live_edges(owner, LinkTypes::AgentToLoginActivity);
            let sl = post.live_edges(owner, LinkTypes::AgentToLoginActivity);
            sl.len() == ss.len() && (forall|i: int|
                0 <= i < sl.len() ==> crate::types::as_login_activity(
                    post.target_payload(#[trigger] sl[i]),
                ) == crate::types::as_login_activity(src.target_payload(ss[i])))
        }),
        ({
            let ss = src.live_edges(owner, LinkTypes::AgentToDashboardActivity);
            let sl = post.live_edges(owner, LinkTypes::AgentToDashboardActivity);
            sl.len() == ss.len() && (forall|i: int|
                0 <= i < sl.len() ==> crate::types::as_dashboard_activity(
                    post.target_payload(#[trigger] sl[i]),
                ) == crate::types::as_dashboard_activity(src.target_payload(ss[i])))
        }),
        ({
            let ss = src.live_edges(owner, LinkTypes::AgentToOAuthActivity);
            let sl = post.live_edges(owner, LinkTypes::AgentToOAuthActivity);
            sl.len() == ss.len() && (forall|i: int|
                0 <= i < sl.len() ==> crate::types::as_oauth_activity(
                    post.target_payload(#[trigger] sl[i]),
                ) == crate::types::as_oauth_activity(src.target_payload(ss[i])))
        }),
        ({
            let sk = src.first_edge_idx(owner, LinkTypes::AgentToPrivacySettings);
            let vk = post.first_edge_idx(owner, LinkTypes::AgentToPrivacySettings);
            sk != -1 ==> vk != -1 && chain_ok(post, post.edge_target(vk)) && as_privacy_settings(
                crate::resolve::head_payload(post, post.edge_target(vk)),
            ) == as_privacy_settings(crate::resolve::head_payload(src, src.edge_target(sk)))
        }),
{
    lemma_import_fresh_reproduces(pre, post, owner, data, now);
}

} // verus!

verus! {

/// Edge classification and resolution facts after two imports in a row:
/// the matching slots of one link type are the union of its two segment
/// windows, each imported entry still resolves to itself, and the live
/// edge list is the two windows in order.
#[verifier::rlimit(100)]
proof fn lemma_import_twice_matches(
    pre: Store,
    mid: Store,
    post: Store,
    owner: u64,
    data: ExportedData,
    now1: i64,
    now2: i64,
    lt: LinkTypes,
    a1: int,
    b1: int,
    a2: int,
    b2: int,
)
    requires
        pre.wf(),
        mid.wf(),
        post.wf(),
        forall|k: int|
            0 <= k < pre.edges@.len() && (#[trigger] pre.edges@[k]).live ==> pre.edges@[k].base
                != owner,
        imported(pre, mid, owner, data, now1),
        imported(mid, post, owner, data, now2),
        0 <= a1 <= b1 <= import_payloads(pre, owner, data, now1).len(),
        0 <= a2 <= b2 <= import_payloads(mid, owner, data, now2).len(),
        forall|j: int|
            0 <= j < import_payloads(pre, owner, data, now1).len() ==> (payload_kind(
                #[trigger] import_payloads(pre, owner, data, now1)[j],
            ) == kind_of_link(lt) <==> a1 <= j < b1),
        forall|j: int|
            0 <= j < import_payloads(mid, owner, data, now2).len() ==> (payload_kind(
                #[trigger] import_payloads(mid, owner, data, now2)[j],
            ) == kind_of_link(lt) <==> a2 <= j < b2),
    ensures
        forall|k: int|
            0 <= k < post.edges@.len() ==> (#[trigger] post.edge_matches(k, owner, lt) <==> ((
            pre.edges@.len() + a1 <= k < pre.edges@.len() + b1) || (mid.edges@.len() + a2 <= k
                < mid.edges@.len() + b2))),
        post.live_edges(owner, lt) =~= Seq::new(
            (b1 - a1) as nat,
            |i: int| pre.edges@.len() + a1 + i,
        ) + Seq::new((b2 - a2) as nat, |i: int| mid.edges@.len() + a2 + i),
        forall|j: int|
            a1 <= j < b1 ==> post.edge_target(pre.edges@.len() + j) == pre.entries@.len() + j
                && chain_ok(post, pre.entries@.len() + j) && crate::resolve::head_payload(
                post,
                pre.entries@.len() + j,
            ) == #[trigger] import_payloads(pre, owner, data, now1)[j],
        forall|j: int|
            a2 <= j < b2 ==> post.edge_target(mid.edges@.len() + j) == mid.entries@.len() + j
                && chain_ok(post, mid.entries@.len() + j) && crate::resolve::head_payload(
                post,
                mid.entries@.len() + j,
            ) == #[trigger] import_payloads(mid, owner, data, now2)[j],
        post.first_edge_idx(owner, lt) == (if a1 < b1 {
            pre.edges@.len() + a1
        } else if a2 < b2 {
            mid.edges@.len() + a2
        } else {
            -1
        }),
{
    let ps1 = import_payloads(pre, owner, data, now1);
    let ps2 = import_payloads(mid, owner, data, now2);
    let offe1 = pre.edges@.len() as int;
    let offe2 = mid.edges@.len() as int;
    let offn1 = pre.entries@.len() as int;
    let offn2 = mid.entries@.len() as int;
    lemma_import_matches_window(pre, mid, owner, data, now1, lt, a1, b1);
    lemma_import_step_shape(mid, post, owner, ps2);
    // first-import entries and edges survive unchanged in `post`
    assert forall|t: int| 0 <= t < offn2 implies post.entries@[t] == mid.entries@[t] by {
        assert(post.entries@ == mid.entries@ + entries_wrapped(owner, ps2));
    }
    assert forall|k: int|
        0 <= k < post.edges@.len() implies (#[trigger] post.edge_matches(k, owner, lt) <==> ((offe1
            + a1 <= k < offe1 + b1) || (offe2 + a2 <= k < offe2 + b2))) by {
        if k < offe2 {
            assert(post.edges@[k] == mid.edges@[k]);
            assert(post.edge_matches(k, owner, lt) <==> mid.edge_matches(k, owner, lt));
        } else {
            assert(post.edge_matches(k, owner, lt) <==> link_of_kind(
                payload_kind(ps2[k - offe2]),
            ) == lt);
            let j = k - offe2;
            if payload_kind(ps2[j]) == kind_of_link(lt) {
                assert(link_of_kind(payload_kind(ps2[j])) == lt);
            } else {
                assert(link_of_kind(payload_kind(ps2[j])) != lt);
            }
        }
    }
    mid.lemma_live_edges_prefix_eq(post, owner, lt, offe2);
    post.lemma_live_edges_split(owner, lt, offe2, post.edges@.len() as int);
    post.lemma_live_edges_window(
        owner,
        lt,
        offe2,
        post.edges@.len() as int,
        offe2 + a2,
        offe2 + b2,
    );
    assert(post.live_edges(owner, lt) == mid.live_edges(owner, lt)
        + post.live_edges_between(owner, lt, offe2, post.edges@.len() as int));
    // resolution of first-import entries is untouched by the second
    assert forall|j: int|
        a1 <= j < b1 implies post.edge_target(offe1 + j) == offn1 + j && chain_ok(
        post,
        offn1 + j,
    ) && crate::resolve::head_payload(post, offn1 + j) == #[trigger] ps1[j] by {
        assert(post.edges@[offe1 + j] == mid.edges@[offe1 + j]);
        assert(mid.entries.len() == mid.entries@.len());
        assert(mid.edges@[offe1 + j].target == (pre.entries@.len() + j) as usize);
        assert(mid.edge_target(offe1 + j) == offn1 + j);
        assert(post.entries@[offn1 + j] == mid.entries@[offn1 + j]);
        assert(post.succs@[offn1 + j] == mid.succs@[offn1 + j]);
        assert(mid.entries@[offn1 + j] == entries_wrapped(owner, ps1)[j]);
        assert(mid.succs@[offn1 + j]@ == Seq::<usize>::empty());
    }
    post.lemma_first_edge_upto(owner, lt, post.edges@.len() as int);
    if a1 < b1 {
        assert(post.edge_matches(offe1 + a1, owner, lt));
        let f = post.first_edge_idx(owner, lt);
        assert(f != -1);
        assert(post.edge_matches(f, owner, lt));
        assert(f == offe1 + a1);
    } else if a2 < b2 {
        assert(post.edge_matches(offe2 + a2, owner, lt));
        let f = post.first_edge_idx(owner, lt);
        assert(f != -1);
        assert(post.edge_matches(f, owner, lt));
        assert(f == offe2 + a2);
    } else {
        assert(post.first_edge_idx(owner, lt) == -1);
    }
}

/// The multi-instance half of a repeated import: each list kind doubles.
#[verifier::rlimit(100)]
proof fn lemma_import_twice_lists(
    pre: Store,
    mid: Store,
    post: Store,
    owner: u64,
    data: ExportedData,
    now1: i64,
    now2: i64,
)
    requires
        pre.wf(),
        mid.wf(),
        post.wf(),
        forall|k: int|
            0 <= k < pre.edges@.len() && (#[trigger] pre.edges@[k]).live ==> pre.edges@[k].base
                != owner,
        imported(pre, mid, owner, data, now1),
        imported(mid, post, owner, data, now2),
    ensures
        ({
            let ns = data.sessions@.len() as int;
            let sl = post.live_edges(owner, LinkTypes::AgentToSessions);
            sl.len() == 2 * ns && (forall|i: int|
                0 <= i < 2 * ns ==> as_session(post.target_payload(#[trigger] sl[i]))
                    == data.sessions@[if i < ns {
                    i
                } else {
                    i - ns
                }])
        }),
        post.live_edges(owner, LinkTypes::AgentToEmailPermissions).len() == 2
            * data.email_permissions@.len(),
        post.live_edges(owner, LinkTypes::AgentToLoginActivity).len() == 2
            * data.login_activities@.len(),
        post.live_edges(owner, LinkTypes::AgentToDashboardActivity).len() == 2
            * data.dashboard_activities@.len(),
        post.live_edges(owner, LinkTypes::AgentToOAuthActivity).len() == 2
            * data.oauth_activities@.len(),
{
    let ps1 = import_payloads(pre, owner, data, now1);
    let ps2 = import_payloads(mid, owner, data, now2);
    let offe1 = pre.edges@.len() as int;
    let offe2 = mid.edges@.len() as int;
    lemma_import_payload_table(pre, owner, data, now1);
    lemma_import_payload_table(mid, owner, data, now2);
    lemma_import_twice_matches(
        pre, mid, post, owner, data, now1, now2,
        LinkTypes::AgentToSessions,
        off_sessions(data), off_perms(data), off_sessions(data), off_perms(data),
    );
    let ns = data.sessions@.len() as int;
    let sl = post.live_edges(owner, LinkTypes::AgentToSessions);
    assert(sl.len() == 2 * ns);
    assert forall|i: int|
        0 <= i < 2 * ns implies as_session(post.target_payload(#[trigger] sl[i]))
        == data.sessions@[if i < ns {
        i
    } else {
        i - ns
    }] by {
        if i < ns {
            assert(sl[i] == offe1 + off_sessions(data) + i);
            assert(ps1[off_sessions(data) + i] == EntryTypes::Session(data.sessions@[i]));
        } else {
            assert(sl[i] == offe2 + off_sessions(data) + (i - ns));
            assert(ps2[off_sessions(data) + (i - ns)] == EntryTypes::Session(
                data.sessions@[i - ns],
            ));
        }
    }
    lemma_import_twice_matches(
        pre, mid, post, owner, data, now1, now2,
        LinkTypes::AgentToEmailPermissions,
        off_perms(data), off_logins(data), off_perms(data), off_logins(data),
    );
    lemma_import_twice_matches(
        pre, mid, post, owner, data, now1, now2,
        LinkTypes::AgentToLoginActivity,
        off_logins(data), off_dash(data), off_logins(data), off_dash(data),
    );
    lemma_import_twice_matches(
        pre, mid, post, owner, data, now1, now2,
        LinkTypes::AgentToDashboardActivity,
        off_dash(data), off_oauth(data), off_dash(data), off_oauth(data),
    );
    lemma_import_twice_matches(
        pre, mid, post, owner, data, now1, now2,
        LinkTypes::AgentToOAuthActivity,
        off_oauth(data), off_priv(data), off_oauth(data), off_priv(data),
    );
}

/// The singleton half of a repeated import: duplicates arise, but each
/// singleton still resolves to the bundle's value.
#[verifier::rlimit(100)]
proof fn lemma_import_twice_singletons(
    pre: Store,
    mid: Store,
    post: Store,
    owner: u64,
    data: ExportedData,
    now1: i64,
    now2: i64,
)
    requires
        pre.wf(),
        mid.wf(),
        post.wf(),
        forall|k: int|
            0 <= k < pre.edges@.len() && (#[trigger] pre.edges@[k]).live ==> pre.edges@[k].base
                != owner,
        imported(pre, mid, owner, data, now1),
        imported(mid, post, owner, data, now2),
    ensures
        ({
            let pk = post.first_edge_idx(owner, LinkTypes::AgentToProfile);
            match data.user_profile {
                Option::Some(p) => pk != -1 && chain_ok(post, post.edge_target(pk))
                    && as_user_profile(crate::resolve::head_payload(post, post.edge_target(pk)))
                    == p,
                Option::None => pk == -1,
            }
        }),
        ({
            let vb = best_phrase_edge(post, owner);
            match data.recovery_phrase {
                Option::Some(p) => vb != -1 && as_recovery_phrase(post.target_payload(vb)) == p,
                Option::None => vb == -1,
            }
        }),
        ({
            let vk = post.first_edge_idx(owner, LinkTypes::AgentToPrivacySettings);
            let expected = match data.privacy_settings {
                Option::Some(p) => p,
                Option::None => default_privacy_settings(now1),
            };
            vk != -1 && chain_ok(post, post.edge_target(vk)) && as_privacy_settings(
                crate::resolve::head_payload(post, post.edge_target(vk)),
            ) == expected
        }),
{
    let ps1 = import_payloads(pre, owner, data, now1);
    let ps2 = import_payloads(mid, owner, data, now2);
    let offe1 = pre.edges@.len() as int;
    let offe2 = mid.edges@.len() as int;
    let offn1 = pre.entries@.len() as int;
    let offn2 = mid.entries@.len() as int;
    lemma_import_payload_table(pre, owner, data, now1);
    lemma_import_payload_table(mid, owner, data, now2);
    lemma_import_twice_matches(
        pre, mid, post, owner, data, now1, now2,
        LinkTypes::AgentToProfile,
        0, off_phrase(data), 0, off_phrase(data),
    );
    match data.user_profile {
        Option::Some(p) => {
            let pk = post.first_edge_idx(owner, LinkTypes::AgentToProfile);
            assert(pk == offe1);
            assert(crate::resolve::head_payload(post, offn1 + 0) == ps1[0]);
            assert(ps1[0] == EntryTypes::UserProfile(p));
        },
        Option::None => {},
    }
    lemma_import_twice_matches(
        pre, mid, post, owner, data, now1, now2,
        LinkTypes::AgentToRecoveryPhrase,
        off_phrase(data), off_sessions(data), off_phrase(data), off_sessions(data),
    );
    crate::lifecycle::lemma_best_phrase_upto(post, owner, post.edges@.len() as int);
    match data.recovery_phrase {
        Option::Some(p) => {
            assert(post.edge_matches(
                offe1 + off_phrase(data),
                owner,
                LinkTypes::AgentToRecoveryPhrase,
            ));
            let vb = best_phrase_edge(post, owner);
            assert(vb != -1);
            assert(post.edge_matches(vb, owner, LinkTypes::AgentToRecoveryPhrase));
            if vb == offe1 + off_phrase(data) {
                assert(post.target_payload(vb) == crate::resolve::head_payload(
                    post,
                    offn1 + off_phrase(data),
                ));
                assert(ps1[off_phrase(data)] == EntryTypes::RecoveryPhrase(p));
            } else {
                assert(vb == offe2 + off_phrase(data));
                assert(post.target_payload(vb) == crate::resolve::head_payload(
                    post,
                    offn2 + off_phrase(data),
                ));
                assert(ps2[off_phrase(data)] == EntryTypes::RecoveryPhrase(p));
            }
        },
        Option::None => {
            let vb = best_phrase_edge(post, owner);
            if vb != -1 {
                assert(post.edge_matches(vb, owner, LinkTypes::AgentToRecoveryPhrase));
                assert(false);
            }
        },
    }
    pre.lemma_first_edge_upto(owner, LinkTypes::AgentToPrivacySettings, pre.edges@.len() as int);
    assert(pre.first_edge_idx(owner, LinkTypes::AgentToPrivacySettings) == -1);
    let sh1 = privacy_seg(pre, owner, data, now1);
    assert(sh1.len() == 1);
    let a2v = off_priv(data);
    let b2v = a2v + privacy_seg(mid, owner, data, now2).len();
    lemma_import_twice_matches(
        pre, mid, post, owner, data, now1, now2,
        LinkTypes::AgentToPrivacySettings,
        off_priv(data), off_priv(data) + 1, a2v, b2v,
    );
    let vk = post.first_edge_idx(owner, LinkTypes::AgentToPrivacySettings);
    assert(vk == offe1 + off_priv(data));
    assert(crate::resolve::head_payload(post, offn1 + off_priv(data)) == ps1[off_priv(data)]);
    assert(ps1[off_priv(data)] == sh1[0]);
}

/// Re-running an import of the same bundle, for an owner who was fresh
/// before the first run, is idempotence-safe: every multi-instance kind
/// gains a second, independent set of instances — nothing is
/// deduplicated — while the singleton kinds merely acquire the documented
/// duplicate state and still resolve to the bundle's values: the profile
/// and privacy chains through their first edge, the recovery phrase
/// through greatest-timestamp repair over the duplicate edges.
pub proof fn lemma_import_twice(
    pre: Store,
    mid: Store,
    post: Store,
    owner: u64,
    data: ExportedData,
    now1: i64,
    now2: i64,
)
    requires
        pre.wf(),
        mid.wf(),
        post.wf(),
        forall|k: int|
            0 <= k < pre.edges@.len() && (#[trigger] pre.edges@[k]).live ==> pre.edges@[k].base
                != owner,
        imported(pre, mid, owner, data, now1),
        imported(mid, post, owner, data, now2),
    ensures
        ({
            let ns = data.sessions@.len() as int;
            let sl = post.live_edges(owner, LinkTypes::AgentToSessions);
            sl.len() == 2 * ns && (forall|i: int|
                0 <= i < 2 * ns ==> as_session(post.target_payload(#[trigger] sl[i]))
                    == data.sessions@[if i < ns {
                    i
                } else {
                    i - ns
                }])
        }),
        post.live_edges(owner, LinkTypes::AgentToEmailPermissions).len() == 2
            * data.email_permissions@.len(),
        post.live_edges(owner, LinkTypes::AgentToLoginActivity).len() == 2
            * data.login_activities@.len(),
        post.live_edges(owner, LinkTypes::AgentToDashboardActivity).len() == 2
            * data.dashboard_activities@.len(),
        post.live_edges(owner, LinkTypes::AgentToOAuthActivity).len() == 2
            * data.oauth_activities@.len(),
        ({
            let pk = post.first_edge_idx(owner, LinkTypes::AgentToProfile);
            match data.user_profile {
                Option::Some(p) => pk != -1 && chain_ok(post, post.edge_target(pk))
                    && as_user_profile(crate::resolve::head_payload(post, post.edge_target(pk)))
                    == p,
                Option::None => pk == -1,
            }
        }),
        ({
            let vb = best_phrase_edge(post, owner);
            match data.recovery_phrase {
                Option::Some(p) => vb != -1 && as_recovery_phrase(post.target_payload(vb)) == p,
                Option::None => vb == -1,
            }
        }),
        ({
            let vk = post.first_edge_idx(owner, LinkTypes::AgentToPrivacySettings);
            let expected = match data.privacy_settings {
                Option::Some(p) => p,
                Option::None => default_privacy_settings(now1),
            };
            vk != -1 && chain_ok(post, post.edge_target(vk)) && as_privacy_settings(
                crate::resolve::head_payload(post, post.edge_target(vk)),
            ) == expected
        }),
{
    lemma_import_twice_lists(pre, mid, post, owner, data, now1, now2);
    lemma_import_twice_singletons(pre, mid, post, owner, data, now1, now2);
}
} // verus!
