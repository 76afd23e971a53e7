//! The owner's private activity logs: login, dashboard and third-party
//! application events.
//!
//! These are append-only multi-instance kinds.  Reads are paginated
//! newest-first over the insertion-ordered edge list; the retention
//! sweeper deletes entries strictly older than a cutoff and is safe to
//! re-run.

use vstd::prelude::*;
use crate::store::{created, Store};
use crate::types::{as_dashboard_activity, as_login_activity, as_oauth_activity, kind_of_link,
    DashboardActivity, EntryTypes, LoginActivity, OAuthActivity, RecordKind};
use crate::types::LinkTypes;

verus! {

/// The creation timestamp embedded in any payload.
pub open spec fn created_at_of(p: EntryTypes) -> int {
    match p {
        EntryTypes::UserProfile(x) => x.created_at as int,
        EntryTypes::RecoveryPhrase(x) => x.created_at as int,
        EntryTypes::Session(x) => x.created_at as int,
        EntryTypes::EmailPermission(x) => x.created_at as int,
        EntryTypes::LoginActivity(x) => x.created_at as int,
        EntryTypes::DashboardActivity(x) => x.created_at as int,
        EntryTypes::OAuthActivity(x) => x.created_at as int,
        EntryTypes::PrivacySettings(x) => x.created_at as int,
        EntryTypes::AppAnalyticsId(x) => x.created_at as int,
    }
}

/// Executable form of [`created_at_of`].
fn created_at_field(p: &EntryTypes) -> (t: i64)
    ensures
        t as int == created_at_of(*p),
{
    match p {
        EntryTypes::UserProfile(x) => x.created_at,
        EntryTypes::RecoveryPhrase(x) => x.created_at,
        EntryTypes::Session(x) => x.created_at,
        EntryTypes::EmailPermission(x) => x.created_at,
        EntryTypes::LoginActivity(x) => x.created_at,
        EntryTypes::DashboardActivity(x) => x.created_at,
        EntryTypes::OAuthActivity(x) => x.created_at,
        EntryTypes::PrivacySettings(x) => x.created_at,
        EntryTypes::AppAnalyticsId(x) => x.created_at,
    }
}

/// The kinds the retention sweeper may run on: the append-only event
/// logs, never singleton configuration or secrets.
pub open spec fn is_event_log(k: RecordKind) -> bool {
    match k {
        RecordKind::LoginActivity => true,
        RecordKind::DashboardActivity => true,
        RecordKind::OAuthActivity => true,
        _ => false,
    }
}

/// Whether edge slot `k` is targeted by a sweep with the given cutoff: a
/// live `(owner, lt)` edge whose entry was created strictly before the
/// cutoff.
pub open spec fn purge_hit(s: Store, k: int, owner: u64, lt: LinkTypes, cutoff: int) -> bool {
    s.edge_matches(k, owner, lt) && created_at_of(s.target_payload(k)) < cutoff
}

/// Whether entry `i` is the target of some swept edge among the first `n`
/// slots.
pub open spec fn hit_target_upto(
    s: Store,
    i: int,
    owner: u64,
    lt: LinkTypes,
    cutoff: int,
    n: int,
) -> bool {
    exists|k: int| 0 <= k < n && purge_hit(s, k, owner, lt, cutoff) && s.edge_target(k) == i
}

/// Whether entry `i` is the target of some swept edge.
pub open spec fn hit_target(s: Store, i: int, owner: u64, lt: LinkTypes, cutoff: int) -> bool {
    hit_target_upto(s, i, owner, lt, cutoff, s.edges@.len() as int)
}

/// How many of the first `n` edge slots a sweep deletes.
pub open spec fn purge_count_upto(s: Store, owner: u64, lt: LinkTypes, cutoff: int, n: int) -> nat
    decreases n,
{
    if n <= 0 {
        0
    } else {
        purge_count_upto(s, owner, lt, cutoff, n - 1) + if purge_hit(s, n - 1, owner, lt, cutoff) {
            1nat
        } else {
            0nat
        }
    }
}

/// How many edges a sweep with the given cutoff deletes.
pub open spec fn purge_count(s: Store, owner: u64, lt: LinkTypes, cutoff: int) -> nat {
    purge_count_upto(s, owner, lt, cutoff, s.edges@.len() as int)
}

/// Transition relation of [`purge_older_than`]: every swept entry is
/// tombstoned and its edge removed; every other entry, edge, and the whole
/// successor index stay as they were.
pub open spec fn purged(pre: Store, post: Store, owner: u64, lt: LinkTypes, cutoff: int) -> bool {
    &&& post.entries@.len() == pre.entries@.len()
    &&& forall|i: int|
        0 <= i < pre.entries@.len() ==> {
            let e_pre = pre.entries@[i];
            let e_post = #[trigger] post.entries@[i];
            e_post.payload == e_pre.payload && e_post.author == e_pre.author && e_post.deleted == (
            e_pre.deleted || hit_target(pre, i, owner, lt, cutoff))
        }
    &&& post.succs@ == pre.succs@
    &&& post.edges@.len() == pre.edges@.len()
    &&& forall|j: int|
        0 <= j < pre.edges@.len() ==> {
            let e_pre = pre.edges@[j];
            let e_post = #[trigger] post.edges@[j];
            e_post.base == e_pre.base && e_post.link == e_pre.link && e_post.target == e_pre.target
                && e_post.live == (e_pre.live && !purge_hit(pre, j, owner, lt, cutoff))
        }
}

/// The retention sweeper: scans every `(owner, lt)` edge, reads the
/// creation timestamp of the entry it targets, and deletes entry and edge
/// when the entry is strictly older than the cutoff.  Only entries the
/// scan itself confirmed to be past the cutoff are touched, so a write
/// racing in after the scan began is never targeted.  Returns how many
/// records were deleted.
pub fn purge_older_than(s: &mut Store, owner: u64, lt: LinkTypes, cutoff: i64) -> (count: u32)
    requires
        old(s).wf(),
        old(s).edges@.len() < u32::MAX,
        is_event_log(kind_of_link(lt)),
    ensures
        final(s).wf(),
        purged(*old(s), *final(s), owner, lt, cutoff as int),
        count as nat == purge_count(*old(s), owner, lt, cutoff as int),
{
    let n = s.edges.len();
    let mut k: usize = 0;
    let mut count: u32 = 0;
    while k < n
        invariant
            n == s.edges@.len(),
            k <= n,
            old(s).wf(),
            s.edges@.len() == old(s).edges@.len(),
            old(s).edges@.len() < u32::MAX,
            s.entries@.len() == old(s).entries@.len(),
            forall|i: int|
                0 <= i < s.entries@.len() ==> {
                    let e_pre = old(s).entries@[i];
                    let e_post = #[trigger] s.entries@[i];
                    e_post.payload == e_pre.payload && e_post.author == e_pre.author
                        && e_post.deleted == (e_pre.deleted || hit_target_upto(
                        *old(s),
                        i,
                        owner,
                        lt,
                        cutoff as int,
                        k as int,
                    ))
                },
            s.succs@ == old(s).succs@,
            forall|j: int|
                0 <= j < s.edges@.len() ==> {
                    let e_pre = old(s).edges@[j];
                    let e_post = #[trigger] s.edges@[j];
                    e_post.base == e_pre.base && e_post.link == e_pre.link && e_post.target
                        == e_pre.target && e_post.live == (e_pre.live && !(j < k as int
                        && purge_hit(*old(s), j, owner, lt, cutoff as int)))
                },
            count as nat == purge_count_upto(*old(s), owner, lt, cutoff as int, k as int),
            count as int <= k as int,
        decreases n - k,
    {
        let mut is_hit = false;
        if s.edges[k].live && s.edges[k].base == owner && s.edges[k].link == lt {
            let t = s.edges[k].target;
            proof {
                assert(old(s).edge_ok(k as int));
            }
            let ts = created_at_field(&s.entries[t].payload);
            is_hit = ts < cutoff;
        }
        if is_hit {
            let t = s.edges[k].target;
            proof {
                assert(old(s).edge_ok(k as int));
            }
            s.entries[t].deleted = true;
            s.edges[k].live = false;
            count = count + 1;
            proof {
                assert(purge_hit(*old(s), k as int, owner, lt, cutoff as int));
                assert forall|i: int| 0 <= i < s.entries@.len() implies {
                    let e_pre = old(s).entries@[i];
                    let e_post = #[trigger] s.entries@[i];
                    e_post.deleted == (e_pre.deleted || hit_target_upto(
                        *old(s),
                        i,
                        owner,
                        lt,
                        cutoff as int,
                        k as int + 1,
                    ))
                } by {
                    if i == old(s).edge_target(k as int) {
                        assert(hit_target_upto(*old(s), i, owner, lt, cutoff as int, k as int + 1));
                    } else {
                        if hit_target_upto(*old(s), i, owner, lt, cutoff as int, k as int + 1) {
                            let w = choose|w: int|
                                0 <= w < k as int + 1 && purge_hit(
                                    *old(s),
                                    w,
                                    owner,
                                    lt,
                                    cutoff as int,
                                ) && old(s).edge_target(w) == i;
                            assert(w < k as int);
                            assert(hit_target_upto(*old(s), i, owner, lt, cutoff as int, k as int));
                        }
                        if hit_target_upto(*old(s), i, owner, lt, cutoff as int, k as int) {
                            let w = choose|w: int|
                                0 <= w < k as int && purge_hit(*old(s), w, owner, lt, cutoff as int)
                                    && old(s).edge_target(w) == i;
                            assert(hit_target_upto(*old(s), i, owner, lt, cutoff as int, k as int
                                + 1));
                        }
                    }
                }
            }
        } else {
            proof {
                assert(!purge_hit(*old(s), k as int, owner, lt, cutoff as int));
                assert forall|i: int| 0 <= i < s.entries@.len() implies (hit_target_upto(
                    *old(s),
                    i,
                    owner,
                    lt,
                    cutoff as int,
                    k as int + 1,
                ) == hit_target_upto(*old(s), i, owner, lt, cutoff as int, k as int)) by {
                    if hit_target_upto(*old(s), i, owner, lt, cutoff as int, k as int + 1) {
                        let w = choose|w: int|
                            0 <= w < k as int + 1 && purge_hit(*old(s), w, owner, lt, cutoff as int)
                                && old(s).edge_target(w) == i;
                        assert(w < k as int);
                        assert(hit_target_upto(*old(s), i, owner, lt, cutoff as int, k as int));
                    }
                    if hit_target_upto(*old(s), i, owner, lt, cutoff as int, k as int) {
                        let w = choose|w: int|
                            0 <= w < k as int && purge_hit(*old(s), w, owner, lt, cutoff as int)
                                && old(s).edge_target(w) == i;
                        assert(hit_target_upto(*old(s), i, owner, lt, cutoff as int, k as int + 1));
                    }
                }
            }
        }
        k = k + 1;
    }
    proof {
        let pre = *old(s);
        let post = *s;
        assert forall|j: int| 0 <= j < post.edges@.len() implies post.edge_ok(j) by {
            assert(pre.edge_ok(j));
            if post.edges@[j].live {
                let t = pre.edge_target(j);
                if hit_target(pre, t, owner, lt, cutoff as int) {
                    let w = choose|w: int|
                        0 <= w < pre.edges@.len() && purge_hit(pre, w, owner, lt, cutoff as int)
                            && pre.edge_target(w) == t;
                    assert(pre.edges@[w].live && pre.edges@[j].live);
                    assert(w == j) by {
                        if w != j {
                            assert(pre.edges_distinct());
                        }
                    }
                    assert(false);
                }
            }
        }
        assert forall|k1: int, k2: int|
            0 <= k1 < post.edges@.len() && 0 <= k2 < post.edges@.len() && k1 != k2
                && (#[trigger] post.edges@[k1]).live && (#[trigger] post.edges@[k2]).live
                implies post.edges@[k1].target != post.edges@[k2].target by {
            assert(pre.edges_distinct());
        }
    }
    count
}

/// Once a sweep has run, an identical sweep immediately after deletes
/// nothing: every record that survives is at least as new as the cutoff.
pub proof fn lemma_purge_idempotent(pre: Store, post: Store, owner: u64, lt: LinkTypes, cutoff: int)
    requires
        pre.wf(),
        purged(pre, post, owner, lt, cutoff),
    ensures
        purge_count(post, owner, lt, cutoff) == 0,
{
    assert forall|j: int| 0 <= j < post.edges@.len() implies !purge_hit(post, j, owner, lt, cutoff) by {
        if post.edges@[j].live {
            assert(pre.edge_ok(j));
            assert(post.entries@[post.edge_target(j)].payload == pre.entries@[pre.edge_target(
                j,
            )].payload);
        }
    }
    lemma_purge_count_zero(post, owner, lt, cutoff, post.edges@.len() as int);
}

/// A sweep over slots none of which it would delete counts zero.
proof fn lemma_purge_count_zero(s: Store, owner: u64, lt: LinkTypes, cutoff: int, n: int)
    requires
        0 <= n,
        forall|j: int| 0 <= j < n ==> !purge_hit(s, j, owner, lt, cutoff),
    ensures
        purge_count_upto(s, owner, lt, cutoff, n) == 0,
    decreases n,
{
    if n > 0 {
        lemma_purge_count_zero(s, owner, lt, cutoff, n - 1);
    }
}

/// Deletes the owner's login events strictly older than
/// `older_than_days` days before `now`; returns how many were deleted.
pub fn delete_old_login_activity(s: &mut Store, owner: u64, older_than_days: i64, now: i64) -> (count: u32)
    requires
        old(s).wf(),
        old(s).edges@.len() < u32::MAX,
        0 <= older_than_days,
        older_than_days * 86_400_000_000 <= i64::MAX as int,
        i64::MIN as int <= now as int - older_than_days * 86_400_000_000,
    ensures
        final(s).wf(),
        purged(
            *old(s),
            *final(s),
            owner,
            LinkTypes::AgentToLoginActivity,
            now as int - older_than_days * 86_400_000_000,
        ),
        count as nat == purge_count(
            *old(s),
            owner,
            LinkTypes::AgentToLoginActivity,
            now as int - older_than_days * 86_400_000_000,
        ),
{
    let cutoff = now - older_than_days * 86_400_000_000;
    purge_older_than(s, owner, LinkTypes::AgentToLoginActivity, cutoff)
}

/// Deletes the owner's dashboard visits strictly older than
/// `older_than_days` days before `now`; returns how many were deleted.
pub fn delete_old_dashboard_activity(s: &mut Store, owner: u64, older_than_days: i64, now: i64) -> (count: u32)
    requires
        old(s).wf(),
        old(s).edges@.len() < u32::MAX,
        0 <= older_than_days,
        older_than_days * 86_400_000_000 <= i64::MAX as int,
        i64::MIN as int <= now as int - older_than_days * 86_400_000_000,
    ensures
        final(s).wf(),
        purged(
            *old(s),
            *final(s),
            owner,
            LinkTypes::AgentToDashboardActivity,
            now as int - older_than_days * 86_400_000_000,
        ),
        count as nat == purge_count(
            *old(s),
            owner,
            LinkTypes::AgentToDashboardActivity,
            now as int - older_than_days * 86_400_000_000,
        ),
{
    let cutoff = now - older_than_days * 86_400_000_000;
    purge_older_than(s, owner, LinkTypes::AgentToDashboardActivity, cutoff)
}

/// Deletes the owner's third-party application events strictly older than
/// `older_than_days` days before `now`; returns how many were deleted.
pub fn delete_old_oauth_activity(s: &mut Store, owner: u64, older_than_days: i64, now: i64) -> (count: u32)
    requires
        old(s).wf(),
        old(s).edges@.len() < u32::MAX,
        0 <= older_than_days,
        older_than_days * 86_400_000_000 <= i64::MAX as int,
        i64::MIN as int <= now as int - older_than_days * 86_400_000_000,
    ensures
        final(s).wf(),
        purged(
            *old(s),
            *final(s),
            owner,
            LinkTypes::AgentToOAuthActivity,
            now as int - older_than_days * 86_400_000_000,
        ),
        count as nat == purge_count(
            *old(s),
            owner,
            LinkTypes::AgentToOAuthActivity,
            now as int - older_than_days * 86_400_000_000,
        ),
{
    let cutoff = now - older_than_days * 86_400_000_000;
    purge_older_than(s, owner, LinkTypes::AgentToOAuthActivity, cutoff)
}

/// Pagination bounds for activity queries; `limit` defaults to 100 and
/// `offset` to 0.
#[derive(Clone, Copy, Debug)]
pub struct GetActivityInput {
    pub limit: Option<u32>,
    pub offset: Option<u32>,
}

/// Pagination bounds for app-filtered third-party activity queries.
#[derive(Debug)]
pub struct GetOAuthActivityByAppInput {
    pub app_id: String,
    pub limit: Option<u32>,
    pub offset: Option<u32>,
}

/// The effective limit of a query: the given one, or 100.
pub open spec fn limit_of(l: Option<u32>) -> int {
    match l {
        Option::Some(v) => v as int,
        Option::None => 100,
    }
}

/// The effective offset of a query: the given one, or 0.
pub open spec fn offset_of(o: Option<u32>) -> int {
    match o {
        Option::Some(v) => v as int,
        Option::None => 0,
    }
}

/// How many items a page holds: `max(0, min(limit, total - offset))`,
/// whatever the offset.
pub open spec fn page_len(total: int, lim: int, off: int) -> int {
    if off >= total {
        0
    } else if total - off < lim {
        total - off
    } else {
        lim
    }
}

/// Stores a login event and links it from the owner key.
pub fn store_login_activity(s: &mut Store, owner: u64, activity: LoginActivity) -> (h: usize)
    requires
        old(s).wf(),
        old(s).entries@.len() < usize::MAX,
    ensures
        final(s).wf(),
        created(*old(s), *final(s), owner, EntryTypes::LoginActivity(activity), h as int),
{
    s.create_record(owner, EntryTypes::LoginActivity(activity))
}

/// Stores a dashboard visit and links it from the owner key.
pub fn store_dashboard_activity(s: &mut Store, owner: u64, activity: DashboardActivity) -> (h:
    usize)
    requires
        old(s).wf(),
        old(s).entries@.len() < usize::MAX,
    ensures
        final(s).wf(),
        created(*old(s), *final(s), owner, EntryTypes::DashboardActivity(activity), h as int),
{
    s.create_record(owner, EntryTypes::DashboardActivity(activity))
}

/// Stores a third-party application event and links it from the owner key.
pub fn store_oauth_activity(s: &mut Store, owner: u64, activity: OAuthActivity) -> (h: usize)
    requires
        old(s).wf(),
        old(s).entries@.len() < usize::MAX,
    ensures
        final(s).wf(),
        created(*old(s), *final(s), owner, EntryTypes::OAuthActivity(activity), h as int),
{
    s.create_record(owner, EntryTypes::OAuthActivity(activity))
}

/// The owner's login history, newest first, paginated: over `K` edges the
/// page holds `max(0, min(limit, K - offset))` items, consistently for
/// every offset.
pub fn get_login_activity(s: &Store, owner: u64, input: GetActivityInput) -> (r: Vec<LoginActivity>)
    requires
        s.wf(),
    ensures
        ({
            let le = s.live_edges(owner, LinkTypes::AgentToLoginActivity);
            &&& r@.len() == page_len(le.len() as int, limit_of(input.limit), offset_of(input.offset))
            &&& forall|i: int|
                0 <= i < r@.len() ==> #[trigger] r@[i] == as_login_activity(
                    s.target_payload(le[le.len() - 1 - offset_of(input.offset) - i]),
                )
        }),
{
    proof {
        s.lemma_live_edges_upto(owner, LinkTypes::AgentToLoginActivity, s.edges@.len() as int);
    }
    let page = s.list_edges(owner, LinkTypes::AgentToLoginActivity);
    let kk = page.len();
    let limit: usize = match input.limit {
        Option::Some(l) => l as usize,
        Option::None => 100,
    };
    let offset: usize = match input.offset {
        Option::Some(o) => o as usize,
        Option::None => 0,
    };
    let mut r: Vec<LoginActivity> = Vec::new();
    if offset >= kk {
        return r;
    }
    let bound = kk - offset;
    let ghost le = s.live_edges(owner, LinkTypes::AgentToLoginActivity);
    let mut i: usize = 0;
    while i < limit && i < bound
        invariant
            s.wf(),
            le == s.live_edges(owner, LinkTypes::AgentToLoginActivity),
            page@.len() == le.len(),
            forall|j: int|
                0 <= j < page@.len() ==> (#[trigger] page@[j]).0 as int == le[j] && page@[j].1
                    as int == s.edge_target(le[j]),
            forall|j: int|
                0 <= j < le.len() ==> s.edge_matches(
                    #[trigger] le[j],
                    owner,
                    LinkTypes::AgentToLoginActivity,
                ),
            kk == le.len(),
            offset < kk,
            bound == kk - offset,
            i <= bound,
            i <= limit,
            limit as int == limit_of(input.limit),
            offset as int == offset_of(input.offset),
            r@.len() == i as int,
            forall|j: int|
                0 <= j < i as int ==> #[trigger] r@[j] == as_login_activity(
                    s.target_payload(le[kk - 1 - offset - j]),
                ),
        decreases bound - i,
    {
        let idx = kk - 1 - offset - i;
        let t = page[idx].1;
        proof {
            assert(s.edge_matches(le[idx as int], owner, LinkTypes::AgentToLoginActivity));
            assert(s.edge_ok(le[idx as int]));
        }
        match &s.entries[t].payload {
            EntryTypes::LoginActivity(a) => r.push(a.clone()),
            _ => {
                proof {
                    assert(false);
                }
            },
        }
        i = i + 1;
    }
    r
}

/// The owner's dashboard history, newest first, paginated as
/// [`get_login_activity`] is.
pub fn get_dashboard_activity(s: &Store, owner: u64, input: GetActivityInput) -> (r: Vec<
    DashboardActivity,
>)
    requires
        s.wf(),
    ensures
        ({
            let le = s.live_edges(owner, LinkTypes::AgentToDashboardActivity);
            &&& r@.len() == page_len(le.len() as int, limit_of(input.limit), offset_of(input.offset))
            &&& forall|i: int|
                0 <= i < r@.len() ==> #[trigger] r@[i] == as_dashboard_activity(
                    s.target_payload(le[le.len() - 1 - offset_of(input.offset) - i]),
                )
        }),
{
    proof {
        s.lemma_live_edges_upto(owner, LinkTypes::AgentToDashboardActivity, s.edges@.len() as int);
    }
    let page = s.list_edges(owner, LinkTypes::AgentToDashboardActivity);
    let kk = page.len();
    let limit: usize = match input.limit {
        Option::Some(l) => l as usize,
        Option::None => 100,
    };
    let offset: usize = match input.offset {
        Option::Some(o) => o as usize,
        Option::None => 0,
    };
    let mut r: Vec<DashboardActivity> = Vec::new();
    if offset >= kk {
        return r;
    }
    let bound = kk - offset;
    let ghost le = s.live_edges(owner, LinkTypes::AgentToDashboardActivity);
    let mut i: usize = 0;
    while i < limit && i < bound
        invariant
            s.wf(),
            le == s.live_edges(owner, LinkTypes::AgentToDashboardActivity),
            page@.len() == le.len(),
            forall|j: int|
                0 <= j < page@.len() ==> (#[trigger] page@[j]).0 as int == le[j] && page@[j].1
                    as int == s.edge_target(le[j]),
            forall|j: int|
                0 <= j < le.len() ==> s.edge_matches(
                    #[trigger] le[j],
                    owner,
                    LinkTypes::AgentToDashboardActivity,
                ),
            kk == le.len(),
            offset < kk,
            bound == kk - offset,
            i <= bound,
            i <= limit,
            limit as int == limit_of(input.limit),
            offset as int == offset_of(input.offset),
            r@.len() == i as int,
            forall|j: int|
                0 <= j < i as int ==> #[trigger] r@[j] == as_dashboard_activity(
                    s.target_payload(le[kk - 1 - offset - j]),
                ),
        decreases bound - i,
    {
        let idx = kk - 1 - offset - i;
        let t = page[idx].1;
        proof {
            assert(s.edge_matches(le[idx as int], owner, LinkTypes::AgentToDashboardActivity));
            assert(s.edge_ok(le[idx as int]));
        }
        match &s.entries[t].payload {
            EntryTypes::DashboardActivity(a) => r.push(a.clone()),
            _ => {
                proof {
                    assert(false);
                }
            },
        }
        i = i + 1;
    }
    r
}

/// The owner's third-party application history, newest first, paginated
/// as [`get_login_activity`] is.
pub fn get_oauth_activity(s: &Store, owner: u64, input: GetActivityInput) -> (r: Vec<OAuthActivity>)
    requires
        s.wf(),
    ensures
        ({
            let le = s.live_edges(owner, LinkTypes::AgentToOAuthActivity);
            &&& r@.len() == page_len(le.len() as int, limit_of(input.limit), offset_of(input.offset))
            &&& forall|i: int|
                0 <= i < r@.len() ==> #[trigger] r@[i] == as_oauth_activity(
                    s.target_payload(le[le.len() - 1 - offset_of(input.offset) - i]),
                )
        }),
{
    proof {
        s.lemma_live_edges_upto(owner, LinkTypes::AgentToOAuthActivity, s.edges@.len() as int);
    }
    let page = s.list_edges(owner, LinkTypes::AgentToOAuthActivity);
    let kk = page.len();
    let limit: usize = match input.limit {
        Option::Some(l) => l as usize,
        Option::None => 100,
    };
    let offset: usize = match input.offset {
        Option::Some(o) => o as usize,
        Option::None => 0,
    };
    let mut r: Vec<OAuthActivity> = Vec::new();
    if offset >= kk {
        return r;
    }
    let bound = kk - offset;
    let ghost le = s.live_edges(owner, LinkTypes::AgentToOAuthActivity);
    let mut i: usize = 0;
    while i < limit && i < bound
        invariant
            s.wf(),
            le == s.live_edges(owner, LinkTypes::AgentToOAuthActivity),
            page@.len() == le.len(),
            forall|j: int|
                0 <= j < page@.len() ==> (#[trigger] page@[j]).0 as int == le[j] && page@[j].1
                    as int == s.edge_target(le[j]),
            forall|j: int|
                0 <= j < le.len() ==> s.edge_matches(
                    #[trigger] le[j],
                    owner,
                    LinkTypes::AgentToOAuthActivity,
                ),
            kk == le.len(),
            offset < kk,
            bound == kk - offset,
            i <= bound,
            i <= limit,
            limit as int == limit_of(input.limit),
            offset as int == offset_of(input.offset),
            r@.len() == i as int,
            forall|j: int|
                0 <= j < i as int ==> #[trigger] r@[j] == as_oauth_activity(
                    s.target_payload(le[kk - 1 - offset - j]),
                ),
        decreases bound - i,
    {
        let idx = kk - 1 - offset - i;
        let t = page[idx].1;
        proof {
            assert(s.edge_matches(le[idx as int], owner, LinkTypes::AgentToOAuthActivity));
            assert(s.edge_ok(le[idx as int]));
        }
        match &s.entries[t].payload {
            EntryTypes::OAuthActivity(a) => r.push(a.clone()),
            _ => {
                proof {
                    assert(false);
                }
            },
        }
        i = i + 1;
    }
    r
}

} // verus!

verus! {

/// Summary statistics over the owner's activity logs.
#[derive(Clone, Copy, Debug, PartialEq, Eq, Structural)]
pub struct ActivitySummary {
    pub total_logins: u32,
    pub logins_last_30_days: u32,
    pub unique_apps_used: u32,
    pub dashboard_visits: u32,
    pub last_login: Option<i64>,
}

/// The edge slots from `k` on that carry a third-party event of
/// application `app`, in insertion order.
pub open spec fn oauth_app_edges_from(s: Store, owner: u64, app: Seq<char>, k: int) -> Seq<int>
    decreases s.edges@.len() - k,
{
    if k >= s.edges@.len() {
        Seq::empty()
    } else if s.edge_matches(k, owner, LinkTypes::AgentToOAuthActivity) && as_oauth_activity(
        s.target_payload(k),
    ).app_id@ == app {
        seq![k] + oauth_app_edges_from(s, owner, app, k + 1)
    } else {
        oauth_app_edges_from(s, owner, app, k + 1)
    }
}

/// The owner's third-party history for one application, newest first,
/// paginated after filtering: over `F` matching events the page holds
/// `max(0, min(limit, F - offset))` items.
pub fn get_oauth_activity_by_app(s: &Store, owner: u64, input: GetOAuthActivityByAppInput) -> (r:
    Vec<OAuthActivity>)
    requires
        s.wf(),
    ensures
        ({
            let fe = oauth_app_edges_from(*s, owner, input.app_id@, 0);
            &&& r@.len() == page_len(fe.len() as int, limit_of(input.limit), offset_of(
                input.offset,
            ))
            &&& forall|i: int|
                0 <= i < r@.len() ==> #[trigger] r@[i] == as_oauth_activity(
                    s.target_payload(fe[fe.len() - 1 - offset_of(input.offset) - i]),
                )
        }),
{
    let n = s.edges.len();
    let mut rs: Vec<OAuthActivity> = Vec::new();
    let mut k: usize = n;
    while k > 0
        invariant
            s.wf(),
            n == s.edges@.len(),
            k <= n,
            ({
                let fk = oauth_app_edges_from(*s, owner, input.app_id@, k as int);
                &&& rs@.len() == fk.len()
                &&& forall|j: int|
                    0 <= j < rs@.len() ==> #[trigger] rs@[j] == as_oauth_activity(
                        s.target_payload(fk[fk.len() - 1 - j]),
                    )
            }),
        decreases k,
    {
        k = k - 1;
        let e = &s.edges[k];
        let ghost fk1 = oauth_app_edges_from(*s, owner, input.app_id@, k as int + 1);
        if e.live && e.base == owner && e.link == LinkTypes::AgentToOAuthActivity {
            proof {
                assert(s.edge_ok(k as int));
            }
            match &s.entries[e.target].payload {
                EntryTypes::OAuthActivity(a) => {
                    if a.app_id == input.app_id {
                        rs.push(a.clone());
                        proof {
                            let fk = oauth_app_edges_from(*s, owner, input.app_id@, k as int);
                            assert(fk == seq![k as int] + fk1);
                            assert(fk[0] == k as int);
                            assert forall|j: int| 0 <= j < rs@.len() implies #[trigger] rs@[j]
                                == as_oauth_activity(s.target_payload(fk[fk.len() - 1 - j])) by {
                                if j < rs@.len() - 1 {
                                    assert(fk[fk.len() - 1 - j] == fk1[fk1.len() - 1 - j]);
                                }
                            }
                        }
                    }
                },
                _ => {
                    proof {
                        assert(false);
                    }
                },
            }
        }
    }
    let kk = rs.len();
    let limit: usize = match input.limit {
        Option::Some(l) => l as usize,
        Option::None => 100,
    };
    let offset: usize = match input.offset {
        Option::Some(o) => o as usize,
        Option::None => 0,
    };
    let ghost fe = oauth_app_edges_from(*s, owner, input.app_id@, 0);
    let mut r: Vec<OAuthActivity> = Vec::new();
    if offset >= kk {
        return r;
    }
    let bound = kk - offset;
    let mut i: usize = 0;
    while i < limit && i < bound
        invariant
            kk == rs@.len(),
            kk == fe.len(),
            forall|j: int|
                0 <= j < rs@.len() ==> #[trigger] rs@[j] == as_oauth_activity(
                    s.target_payload(fe[fe.len() - 1 - j]),
                ),
            offset < kk,
            bound == kk - offset,
            i <= bound,
            i <= limit,
            limit as int == limit_of(input.limit),
            offset as int == offset_of(input.offset),
            r@.len() == i as int,
            forall|j: int|
                0 <= j < i as int ==> #[trigger] r@[j] == as_oauth_activity(
                    s.target_payload(fe[fe.len() - 1 - offset - j]),
                ),
        decreases bound - i,
    {
        let item = rs[offset + i].clone();
        r.push(item);
        i = i + 1;
    }
    r
}

/// How many of the first `n` edge slots carry a login event at or after
/// `since`.
pub open spec fn recent_login_count_upto(s: Store, owner: u64, since: int, n: int) -> nat
    decreases n,
{
    if n <= 0 {
        0
    } else {
        recent_login_count_upto(s, owner, since, n - 1) + if s.edge_matches(
            n - 1,
            owner,
            LinkTypes::AgentToLoginActivity,
        ) && as_login_activity(s.target_payload(n - 1)).timestamp as int >= since {
            1nat
        } else {
            0nat
        }
    }
}

/// The greatest login timestamp among the first `n` edge slots, or `None`
/// when none carries a login event.
pub open spec fn latest_login_upto(s: Store, owner: u64, n: int) -> Option<i64>
    decreases n,
{
    if n <= 0 {
        Option::None
    } else {
        let prev = latest_login_upto(s, owner, n - 1);
        if !s.edge_matches(n - 1, owner, LinkTypes::AgentToLoginActivity) {
            prev
        } else {
            let ts = as_login_activity(s.target_payload(n - 1)).timestamp;
            match prev {
                Option::None => Option::Some(ts),
                Option::Some(m) => Option::Some(
                    if ts > m {
                        ts
                    } else {
                        m
                    },
                ),
            }
        }
    }
}

/// The set of application ids appearing in the owner's third-party events
/// among the first `n` edge slots.
pub open spec fn oauth_apps_upto(s: Store, owner: u64, n: int) -> Set<Seq<char>>
    decreases n,
{
    if n <= 0 {
        Set::empty()
    } else {
        let prev = oauth_apps_upto(s, owner, n - 1);
        if s.edge_matches(n - 1, owner, LinkTypes::AgentToOAuthActivity) {
            prev.insert(as_oauth_activity(s.target_payload(n - 1)).app_id@)
        } else {
            prev
        }
    }
}

/// The application-id set is finite.
pub proof fn lemma_oauth_apps_finite(s: Store, owner: u64, n: int)
    ensures
        oauth_apps_upto(s, owner, n).finite(),
    decreases n,
{
    if n > 0 {
        lemma_oauth_apps_finite(s, owner, n - 1);
    }
}

/// Counts and statistics over the owner's activity logs: total and
/// thirty-day login counts, the greatest login timestamp, the number of
/// dashboard visits, and how many distinct applications appear in the
/// third-party log.
pub fn get_activity_summary(s: &Store, owner: u64, now: i64) -> (r: ActivitySummary)
    requires
        s.wf(),
        s.edges@.len() < u32::MAX,
        i64::MIN as int <= now as int - 2_592_000_000_000,
    ensures
        r.total_logins as nat == s.live_edges(owner, LinkTypes::AgentToLoginActivity).len(),
        r.logins_last_30_days as nat == recent_login_count_upto(
            *s,
            owner,
            now as int - 2_592_000_000_000,
            s.edges@.len() as int,
        ),
        r.last_login == latest_login_upto(*s, owner, s.edges@.len() as int),
        r.dashboard_visits as nat == s.live_edges(owner, LinkTypes::AgentToDashboardActivity).len(),
        r.unique_apps_used as nat == oauth_apps_upto(*s, owner, s.edges@.len() as int).len(),
{
    let thirty_days_ago = now - 2_592_000_000_000;
    let n = s.edges.len();
    let mut total_logins: u32 = 0;
    let mut logins_last_30_days: u32 = 0;
    let mut last_login: Option<i64> = Option::None;
    let mut dashboard_visits: u32 = 0;
    let mut seen: Vec<String> = Vec::new();
    let mut k: usize = 0;
    while k < n
        invariant
            s.wf(),
            n == s.edges@.len(),
            n < u32::MAX,
            k <= n,
            total_logins as nat == s.live_edges_upto(
                owner,
                LinkTypes::AgentToLoginActivity,
                k as int,
            ).len(),
            total_logins as int <= k as int,
            logins_last_30_days as nat == recent_login_count_upto(
                *s,
                owner,
                thirty_days_ago as int,
                k as int,
            ),
            logins_last_30_days as int <= k as int,
            last_login == latest_login_upto(*s, owner, k as int),
            dashboard_visits as nat == s.live_edges_upto(
                owner,
                LinkTypes::AgentToDashboardActivity,
                k as int,
            ).len(),
            dashboard_visits as int <= k as int,
            ({
                let apps = oauth_apps_upto(*s, owner, k as int);
                &&& apps.finite()
                &&& seen@.len() as nat == apps.len()
                &&& forall|j: int| 0 <= j < seen@.len() ==> apps.contains(#[trigger] seen@[j]@)
                &&& forall|v: Seq<char>|
                    apps.contains(v) ==> exists|j: int| 0 <= j < seen@.len() && #[trigger] seen@[j]@
                        == v
                &&& forall|j1: int, j2: int|
                    0 <= j1 < j2 < seen@.len() ==> (#[trigger] seen@[j1])@ != (
                    #[trigger] seen@[j2])@
            }),
            seen@.len() <= k,
        decreases n - k,
    {
        broadcast use vstd::set::axiom_set_insert_len;
        broadcast use vstd::set::axiom_set_insert_finite;

        let e = &s.edges[k];
        if e.live && e.base == owner {
            if e.link == LinkTypes::AgentToLoginActivity {
                proof {
                    assert(s.edge_ok(k as int));
                }
                match &s.entries[e.target].payload {
                    EntryTypes::LoginActivity(a) => {
                        total_logins = total_logins + 1;
                        if a.timestamp >= thirty_days_ago {
                            logins_last_30_days = logins_last_30_days + 1;
                        }
                        match last_login {
                            Option::None => {
                                last_login = Option::Some(a.timestamp);
                            },
                            Option::Some(m) => {
                                if a.timestamp > m {
                                    last_login = Option::Some(a.timestamp);
                                }
                            },
                        }
                    },
                    _ => {
                        proof {
                            assert(false);
                        }
                    },
                }
            } else if e.link == LinkTypes::AgentToDashboardActivity {
                dashboard_visits = dashboard_visits + 1;
            } else if e.link == LinkTypes::AgentToOAuthActivity {
                proof {
                    assert(s.edge_ok(k as int));
                }
                match &s.entries[e.target].payload {
                    EntryTypes::OAuthActivity(a) => {
                        let mut found = false;
                        let m = seen.len();
                        let mut j: usize = 0;
                        while j < m
                            invariant
                                m == seen@.len(),
                                j <= m,
                                found == (exists|j2: int|
                                    0 <= j2 < j as int && (#[trigger] seen@[j2])@ == a.app_id@),
                            decreases m - j,
                        {
                            if seen[j] == a.app_id {
                                found = true;
                            }
                            j = j + 1;
                        }
                        proof {
                            let apps = oauth_apps_upto(*s, owner, k as int);
                            if found {
                                assert(apps.contains(a.app_id@));
                            } else {
                                if apps.contains(a.app_id@) {
                                    let w = choose|w: int|
                                        0 <= w < seen@.len() && (#[trigger] seen@[w])@ == a.app_id@;
                                    assert(false);
                                }
                            }
                        }
                        if !found {
                            let ghost seen0 = seen@;
                            seen.push(a.app_id.clone());
                            proof {
                                let apps = oauth_apps_upto(*s, owner, k as int);
                                let apps1 = oauth_apps_upto(*s, owner, k as int + 1);
                                assert(seen@ == seen0.push(a.app_id));
                                assert forall|v: Seq<char>| apps1.contains(v) implies exists|
                                    j2: int,
                                |
                                    0 <= j2 < seen@.len() && #[trigger] seen@[j2]@ == v by {
                                    if v == a.app_id@ {
                                        assert(seen@[seen@.len() - 1]@ == v);
                                    } else {
                                        assert(apps.contains(v));
                                        let w = choose|w: int|
                                            0 <= w < seen0.len() && (#[trigger] seen0[w])@ == v;
                                        assert(seen@[w] == seen0[w]);
                                        assert(seen@[w]@ == v);
                                    }
                                }
                            }
                        }
                    },
                    _ => {
                        proof {
                            assert(false);
                        }
                    },
                }
            }
        }
        k = k + 1;
    }
    ActivitySummary {
        total_logins,
        logins_last_30_days,
        unique_apps_used: seen.len() as u32,
        dashboard_visits,
        last_login,
    }
}

} // verus!
