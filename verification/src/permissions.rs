//! Per-service permissions: a multi-instance kind keyed by service name.
//!
//! Each logical permission is one chain of revisions reachable from its
//! own edge.  Mutations resolve the instance's head and append a revision;
//! reads resolve every edge and silently skip instances whose chain is
//! broken, as list scans do.

use vstd::prelude::*;
use crate::store::{chain_appended, created, Store};
use crate::resolve::{chain_ok, head_of, head_payload, lemma_head_of, resolve_head};
use crate::types::{as_email_permission, EmailPermission, EntryTypes, Error, LinkTypes};

verus! {

/// A service name and the purpose shown to the owner when granting it
/// access.
#[derive(Debug)]
pub struct GrantPermissionInput {
    pub service_name: String,
    pub purpose: String,
}

/// The resolved permissions among the first `n` edge slots, in insertion
/// order, skipping instances whose chain cannot be resolved.
pub open spec fn perms_upto(s: Store, owner: u64, n: int) -> Seq<EmailPermission>
    decreases n,
{
    if n <= 0 {
        Seq::empty()
    } else {
        let prev = perms_upto(s, owner, n - 1);
        if s.edge_matches(n - 1, owner, LinkTypes::AgentToEmailPermissions) && chain_ok(
            s,
            s.edge_target(n - 1),
        ) {
            prev.push(as_email_permission(head_payload(s, s.edge_target(n - 1))))
        } else {
            prev
        }
    }
}

/// Every resolved permission of the owner, in insertion order.
pub open spec fn resolved_permissions(s: Store, owner: u64) -> Seq<EmailPermission> {
    perms_upto(s, owner, s.edges@.len() as int)
}

/// Whether edge slot `k` is the readable permission instance for
/// `service`; with `need_granted`, only while consent stands.
pub open spec fn perm_match_cond(
    s: Store,
    k: int,
    owner: u64,
    service: Seq<char>,
    need_granted: bool,
) -> bool {
    &&& s.edge_matches(k, owner, LinkTypes::AgentToEmailPermissions)
    &&& chain_ok(s, s.edge_target(k))
    &&& as_email_permission(head_payload(s, s.edge_target(k))).service_name@ == service
    &&& (need_granted ==> as_email_permission(head_payload(s, s.edge_target(k))).granted)
}

/// The first edge slot below `n` matching [`perm_match_cond`], or `-1`.
pub open spec fn perm_match_upto(
    s: Store,
    owner: u64,
    service: Seq<char>,
    need_granted: bool,
    n: int,
) -> int
    decreases n,
{
    if n <= 0 {
        -1
    } else if perm_match_upto(s, owner, service, need_granted, n - 1) >= 0 {
        perm_match_upto(s, owner, service, need_granted, n - 1)
    } else if perm_match_cond(s, n - 1, owner, service, need_granted) {
        n - 1
    } else {
        -1
    }
}

/// The first edge slot matching [`perm_match_cond`], or `-1`.
pub open spec fn perm_match(s: Store, owner: u64, service: Seq<char>, need_granted: bool) -> int {
    perm_match_upto(s, owner, service, need_granted, s.edges@.len() as int)
}

/// Scanning past the first match leaves it the first match.
proof fn lemma_perm_match_step(s: Store, owner: u64, service: Seq<char>, need_granted: bool, m: int)
    requires
        0 < m <= s.edges@.len(),
        perm_match_upto(s, owner, service, need_granted, m) >= 0,
    ensures
        perm_match(s, owner, service, need_granted) == perm_match_upto(
            s,
            owner,
            service,
            need_granted,
            m,
        ),
    decreases s.edges@.len() - m,
{
    if m < s.edges@.len() {
        lemma_perm_match_step(s, owner, service, need_granted, m + 1);
    }
}

/// The permission stored by a fresh grant.
pub open spec fn new_permission(service: String, purpose: String, now: i64) -> EmailPermission {
    EmailPermission {
        service_name: service,
        purpose,
        granted: true,
        granted_at: Option::Some(now),
        revoked_at: Option::None,
        last_used_at: Option::None,
        created_at: now,
        updated_at: now,
    }
}

/// A permission re-granted at `now`: consent restored, the revocation
/// cleared, everything else kept.
pub open spec fn granted_update(p: EmailPermission, now: i64) -> EmailPermission {
    EmailPermission {
        service_name: p.service_name,
        purpose: p.purpose,
        granted: true,
        granted_at: Option::Some(now),
        revoked_at: Option::None,
        last_used_at: p.last_used_at,
        created_at: p.created_at,
        updated_at: now,
    }
}

/// A permission revoked at `now`.
pub open spec fn revoked_update(p: EmailPermission, now: i64) -> EmailPermission {
    EmailPermission {
        service_name: p.service_name,
        purpose: p.purpose,
        granted: false,
        granted_at: p.granted_at,
        revoked_at: Option::Some(now),
        last_used_at: p.last_used_at,
        created_at: p.created_at,
        updated_at: now,
    }
}

/// A permission whose last use is recorded at `now`, for transparency.
pub open spec fn usage_update(p: EmailPermission, now: i64) -> EmailPermission {
    EmailPermission {
        service_name: p.service_name,
        purpose: p.purpose,
        granted: p.granted,
        granted_at: p.granted_at,
        revoked_at: p.revoked_at,
        last_used_at: Option::Some(now),
        created_at: p.created_at,
        updated_at: now,
    }
}

/// Grants (or re-grants) a service access to the owner's email.  When a
/// readable instance for the service exists, its head is updated in place
/// on the chain; otherwise a fresh instance is created and linked.
pub fn grant_email_permission(s: &mut Store, owner: u64, input: GrantPermissionInput, now: i64) -> (
    r: Result<usize, Error>)
    requires
        old(s).wf(),
        old(s).entries@.len() < usize::MAX,
    ensures
        final(s).wf(),
        ({
            let pre = *old(s);
            let m = perm_match(pre, owner, input.service_name@, false);
            if m == -1 {
                r == Result::<usize, Error>::Ok(pre.entries@.len() as usize) && created(
                    pre,
                    *final(s),
                    owner,
                    EntryTypes::EmailPermission(
                        new_permission(input.service_name, input.purpose, now),
                    ),
                    pre.entries@.len() as int,
                )
            } else if pre.entries@[head_of(pre, pre.edge_target(m))].author != owner {
                r == Result::<usize, Error>::Err(Error::Unauthorized) && *final(s) == pre
            } else {
                r == Result::<usize, Error>::Ok(pre.entries@.len() as usize) && chain_appended(
                    pre,
                    *final(s),
                    head_of(pre, pre.edge_target(m)),
                    EntryTypes::EmailPermission(
                        granted_update(
                            as_email_permission(head_payload(pre, pre.edge_target(m))),
                            now,
                        ),
                    ),
                    owner,
                    pre.entries@.len() as int,
                )
            }
        }),
{
    let n = s.edges.len();
    let mut k: usize = 0;
    while k < n
        invariant
            s.wf(),
            s == old(s),
            n == s.edges@.len(),
            k <= n,
            s.entries@.len() < usize::MAX,
            perm_match_upto(*s, owner, input.service_name@, false, k as int) == -1,
        decreases n - k,
    {
        let e = &s.edges[k];
        if e.live && e.base == owner && e.link == LinkTypes::AgentToEmailPermissions {
            proof {
                assert(s.edge_ok(k as int));
            }
            let t = e.target;
            match resolve_head(s, t) {
                Result::Ok(hd) => {
                    proof {
                        lemma_head_of(*s, t as int);
                        assert(s.entries.len() == s.entries@.len());
                    }
                    match &s.entries[hd].payload {
                        EntryTypes::EmailPermission(p) => {
                            if p.service_name == input.service_name {
                                proof {
                                    assert(perm_match_cond(
                                        *s,
                                        k as int,
                                        owner,
                                        input.service_name@,
                                        false,
                                    ));
                                    lemma_perm_match_step(
                                        *s,
                                        owner,
                                        input.service_name@,
                                        false,
                                        k as int + 1,
                                    );
                                }
                                let fresh = EmailPermission {
                                    service_name: p.service_name.clone(),
                                    purpose: p.purpose.clone(),
                                    granted: true,
                                    granted_at: Option::Some(now),
                                    revoked_at: Option::None,
                                    last_used_at: p.last_used_at,
                                    created_at: p.created_at,
                                    updated_at: now,
                                };
                                return s.chain_append(
                                    owner,
                                    hd,
                                    EntryTypes::EmailPermission(fresh),
                                );
                            }
                        },
                        _ => {
                            proof {
                                assert(false);
                            }
                        },
                    }
                },
                Result::Err(_) => {},
            }
        }
        k = k + 1;
    }
    let fresh = EmailPermission {
        service_name: input.service_name,
        purpose: input.purpose,
        granted: true,
        granted_at: Option::Some(now),
        revoked_at: Option::None,
        last_used_at: Option::None,
        created_at: now,
        updated_at: now,
    };
    Result::Ok(s.create_record(owner, EntryTypes::EmailPermission(fresh)))
}

/// Revokes a service's permission: finds the readable instance whose
/// consent stands and appends a revision with consent withdrawn.  When no
/// granted instance exists — never granted, or already revoked — the
/// mutation fails with `NotFound`.
pub fn revoke_email_permission(s: &mut Store, owner: u64, service_name: String, now: i64) -> (r:
    Result<usize, Error>)
    requires
        old(s).wf(),
        old(s).entries@.len() < usize::MAX,
    ensures
        final(s).wf(),
        ({
            let pre = *old(s);
            let m = perm_match(pre, owner, service_name@, true);
            if m == -1 {
                r == Result::<usize, Error>::Err(Error::NotFound) && *final(s) == pre
            } else if pre.entries@[head_of(pre, pre.edge_target(m))].author != owner {
                r == Result::<usize, Error>::Err(Error::Unauthorized) && *final(s) == pre
            } else {
                r == Result::<usize, Error>::Ok(pre.entries@.len() as usize) && chain_appended(
                    pre,
                    *final(s),
                    head_of(pre, pre.edge_target(m)),
                    EntryTypes::EmailPermission(
                        revoked_update(
                            as_email_permission(head_payload(pre, pre.edge_target(m))),
                            now,
                        ),
                    ),
                    owner,
                    pre.entries@.len() as int,
                )
            }
        }),
{
    let n = s.edges.len();
    let mut k: usize = 0;
    while k < n
        invariant
            s.wf(),
            s == old(s),
            n == s.edges@.len(),
            k <= n,
            s.entries@.len() < usize::MAX,
            perm_match_upto(*s, owner, service_name@, true, k as int) == -1,
        decreases n - k,
    {
        let e = &s.edges[k];
        if e.live && e.base == owner && e.link == LinkTypes::AgentToEmailPermissions {
            proof {
                assert(s.edge_ok(k as int));
            }
            let t = e.target;
            match resolve_head(s, t) {
                Result::Ok(hd) => {
                    proof {
                        lemma_head_of(*s, t as int);
                        assert(s.entries.len() == s.entries@.len());
                    }
                    match &s.entries[hd].payload {
                        EntryTypes::EmailPermission(p) => {
                            if p.granted && p.service_name == service_name {
                                proof {
                                    assert(perm_match_cond(
                                        *s,
                                        k as int,
                                        owner,
                                        service_name@,
                                        true,
                                    ));
                                    lemma_perm_match_step(
                                        *s,
                                        owner,
                                        service_name@,
                                        true,
                                        k as int + 1,
                                    );
                                }
                                let fresh = EmailPermission {
                                    service_name: p.service_name.clone(),
                                    purpose: p.purpose.clone(),
                                    granted: false,
                                    granted_at: p.granted_at,
                                    revoked_at: Option::Some(now),
                                    last_used_at: p.last_used_at,
                                    created_at: p.created_at,
                                    updated_at: now,
                                };
                                return s.chain_append(
                                    owner,
                                    hd,
                                    EntryTypes::EmailPermission(fresh),
                                );
                            }
                        },
                        _ => {
                            proof {
                                assert(false);
                            }
                        },
                    }
                },
                Result::Err(_) => {},
            }
        }
        k = k + 1;
    }
    Result::Err(Error::NotFound)
}

/// Records, for transparency, that a granted service just used its
/// permission.  Fails with `NotFound` when no granted instance exists.
pub fn record_permission_usage(s: &mut Store, owner: u64, service_name: String, now: i64) -> (r:
    Result<usize, Error>)
    requires
        old(s).wf(),
        old(s).entries@.len() < usize::MAX,
    ensures
        final(s).wf(),
        ({
            let pre = *old(s);
            let m = perm_match(pre, owner, service_name@, true);
            if m == -1 {
                r == Result::<usize, Error>::Err(Error::NotFound) && *final(s) == pre
            } else if pre.entries@[head_of(pre, pre.edge_target(m))].author != owner {
                r == Result::<usize, Error>::Err(Error::Unauthorized) && *final(s) == pre
            } else {
                r == Result::<usize, Error>::Ok(pre.entries@.len() as usize) && chain_appended(
                    pre,
                    *final(s),
                    head_of(pre, pre.edge_target(m)),
                    EntryTypes::EmailPermission(
                        usage_update(
                            as_email_permission(head_payload(pre, pre.edge_target(m))),
                            now,
                        ),
                    ),
                    owner,
                    pre.entries@.len() as int,
                )
            }
        }),
{
    let n = s.edges.len();
    let mut k: usize = 0;
    while k < n
        invariant
            s.wf(),
            s == old(s),
            n == s.edges@.len(),
            k <= n,
            s.entries@.len() < usize::MAX,
            perm_match_upto(*s, owner, service_name@, true, k as int) == -1,
        decreases n - k,
    {
        let e = &s.edges[k];
        if e.live && e.base == owner && e.link == LinkTypes::AgentToEmailPermissions {
            proof {
                assert(s.edge_ok(k as int));
            }
            let t = e.target;
            match resolve_head(s, t) {
                Result::Ok(hd) => {
                    proof {
                        lemma_head_of(*s, t as int);
                        assert(s.entries.len() == s.entries@.len());
                    }
                    match &s.entries[hd].payload {
                        EntryTypes::EmailPermission(p) => {
                            if p.granted && p.service_name == service_name {
                                proof {
                                    assert(perm_match_cond(
                                        *s,
                                        k as int,
                                        owner,
                                        service_name@,
                                        true,
                                    ));
                                    lemma_perm_match_step(
                                        *s,
                                        owner,
                                        service_name@,
                                        true,
                                        k as int + 1,
                                    );
                                }
                                let fresh = EmailPermission {
                                    service_name: p.service_name.clone(),
                                    purpose: p.purpose.clone(),
                                    granted: p.granted,
                                    granted_at: p.granted_at,
                                    revoked_at: p.revoked_at,
                                    last_used_at: Option::Some(now),
                                    created_at: p.created_at,
                                    updated_at: now,
                                };
                                return s.chain_append(
                                    owner,
                                    hd,
                                    EntryTypes::EmailPermission(fresh),
                                );
                            }
                        },
                        _ => {
                            proof {
                                assert(false);
                            }
                        },
                    }
                },
                Result::Err(_) => {},
            }
        }
        k = k + 1;
    }
    Result::Err(Error::NotFound)
}

/// Lists the owner's resolved permissions, one per instance, in insertion
/// order; instances whose chain is broken are silently skipped, as list
/// scans are.
pub fn get_email_permissions(s: &Store, owner: u64) -> (r: Vec<EmailPermission>)
    requires
        s.wf(),
    ensures
        r@ == resolved_permissions(*s, owner),
{
    let n = s.edges.len();
    let mut r: Vec<EmailPermission> = Vec::new();
    let mut k: usize = 0;
    while k < n
        invariant
            s.wf(),
            n == s.edges@.len(),
            k <= n,
            r@ == perms_upto(*s, owner, k as int),
        decreases n - k,
    {
        let e = &s.edges[k];
        if e.live && e.base == owner && e.link == LinkTypes::AgentToEmailPermissions {
            proof {
                assert(s.edge_ok(k as int));
            }
            let t = e.target;
            match resolve_head(s, t) {
                Result::Ok(hd) => {
                    proof {
                        lemma_head_of(*s, t as int);
                        assert(s.entries.len() == s.entries@.len());
                    }
                    match &s.entries[hd].payload {
                        EntryTypes::EmailPermission(p) => r.push(p.clone()),
                        _ => {
                            proof {
                                assert(false);
                            }
                        },
                    }
                },
                Result::Err(_) => {},
            }
        }
        k = k + 1;
    }
    r
}

/// Whether some resolved permission grants `service` access.
pub open spec fn has_granted_permission(s: Store, owner: u64, service: Seq<char>) -> bool {
    exists|i: int|
        0 <= i < resolved_permissions(s, owner).len() && (#[trigger] resolved_permissions(s, owner)[
            i
        ]).service_name@ == service && resolved_permissions(s, owner)[i].granted
}

/// Whether `service` currently holds a granted permission from the owner.
pub fn check_email_permission(s: &Store, owner: u64, service_name: String) -> (r: bool)
    requires
        s.wf(),
    ensures
        r == has_granted_permission(*s, owner, service_name@),
{
    let perms = get_email_permissions(s, owner);
    let n = perms.len();
    let mut i: usize = 0;
    while i < n
        invariant
            n == perms@.len(),
            i <= n,
            perms@ == resolved_permissions(*s, owner),
            forall|j: int|
                0 <= j < i as int ==> !((#[trigger] perms@[j]).service_name@ == service_name@
                    && perms@[j].granted),
        decreases n - i,
    {
        if perms[i].granted && perms[i].service_name == service_name {
            return true;
        }
        i = i + 1;
    }
    false
}

} // verus!
