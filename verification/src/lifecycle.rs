//! Record lifecycle operations for the singleton kinds and sessions.
//!
//! Create stores an entry and links it; it does not enforce singleton
//! uniqueness — duplicate creates from racing calls are tolerated by
//! resolution, not prevented at write time.  Reads of chain-policy
//! singletons resolve the first edge's chain; reads of the replace-policy
//! recovery phrase pick the entry with the greatest embedded `created_at`
//! over all edges, repairing duplicate-edge states deterministically.

use vstd::prelude::*;
use crate::store::{chain_appended, created, replaced, Store};
use crate::resolve::{chain_ok, head_of, head_payload, lemma_head_of, resolve_head};
use crate::types::{as_recovery_phrase, as_session, as_user_profile, payload_kind, EntryTypes,
    Error, LinkTypes, PrivacySettings, RecordKind, RecoveryPhrase, Session, UserProfile};

verus! {

/// Stores an encrypted user profile and links it from the owner key.
/// Callers of singleton kinds are expected to check for an existing edge
/// first; a duplicate create leaves a duplicate edge for resolution to
/// repair.
pub fn store_user_profile(s: &mut Store, owner: u64, profile: UserProfile) -> (h: usize)
    requires
        old(s).wf(),
        old(s).entries@.len() < usize::MAX,
    ensures
        final(s).wf(),
        created(*old(s), *final(s), owner, EntryTypes::UserProfile(profile), h as int),
{
    s.create_record(owner, EntryTypes::UserProfile(profile))
}

/// Reads the owner's current profile: resolves the update chain hanging
/// off the first profile edge.  Absence is `Ok(None)`, never an error; a
/// chain entry that cannot be fetched is surfaced as `ChainBroken`.
pub fn get_user_profile(s: &Store, owner: u64) -> (r: Result<Option<UserProfile>, Error>)
    requires
        s.wf(),
    ensures
        ({
            let k = s.first_edge_idx(owner, LinkTypes::AgentToProfile);
            if k == -1 {
                r == Result::<Option<UserProfile>, Error>::Ok(Option::<UserProfile>::None)
            } else if chain_ok(*s, s.edge_target(k)) {
                r == Result::<Option<UserProfile>, Error>::Ok(
                    Option::Some(as_user_profile(head_payload(*s, s.edge_target(k)))),
                )
            } else {
                r == Result::<Option<UserProfile>, Error>::Err(Error::ChainBroken)
            }
        }),
{
    proof {
        s.lemma_first_edge_upto(owner, LinkTypes::AgentToProfile, s.edges@.len() as int);
    }
    match s.first_edge(owner, LinkTypes::AgentToProfile) {
        Option::None => Result::Ok(Option::None),
        Option::Some((k, t)) => {
            proof {
                assert(s.edge_matches(k as int, owner, LinkTypes::AgentToProfile));
                assert(s.edge_ok(k as int));
            }
            match resolve_head(s, t) {
                Result::Ok(hd) => {
                    proof {
                        lemma_head_of(*s, t as int);
                        assert(s.entries.len() == s.entries@.len());
                    }
                    match &s.entries[hd].payload {
                        EntryTypes::UserProfile(p) => Result::Ok(Option::Some(p.clone())),
                        _ => {
                            proof {
                                assert(false);
                            }
                            Result::Err(Error::ChainBroken)
                        },
                    }
                },
                Result::Err(e) => Result::Err(e),
            }
        },
    }
}

/// Updates the owner's profile by appending a revision to the resolved
/// head of its chain.  No new edge is created: the existing edge already
/// points into the chain and resolution finds the new head by walking
/// successors.  Requires an existing resolved head and rejects a caller
/// who is not the author of the revision being updated.
pub fn update_user_profile(s: &mut Store, owner: u64, profile: UserProfile) -> (r: Result<
    usize,
    Error,
>)
    requires
        old(s).wf(),
        old(s).entries@.len() < usize::MAX,
    ensures
        final(s).wf(),
        ({
            let pre = *old(s);
            let k = pre.first_edge_idx(owner, LinkTypes::AgentToProfile);
            if k == -1 {
                r == Result::<usize, Error>::Err(Error::NotFound) && *final(s) == pre
            } else if !chain_ok(pre, pre.edge_target(k)) {
                r == Result::<usize, Error>::Err(Error::ChainBroken) && *final(s) == pre
            } else if pre.entries@[head_of(pre, pre.edge_target(k))].author != owner {
                r == Result::<usize, Error>::Err(Error::Unauthorized) && *final(s) == pre
            } else {
                r == Result::<usize, Error>::Ok(pre.entries@.len() as usize) && chain_appended(
                    pre,
                    *final(s),
                    head_of(pre, pre.edge_target(k)),
                    EntryTypes::UserProfile(profile),
                    owner,
                    pre.entries@.len() as int,
                )
            }
        }),
{
    proof {
        s.lemma_first_edge_upto(owner, LinkTypes::AgentToProfile, s.edges@.len() as int);
    }
    match s.first_edge(owner, LinkTypes::AgentToProfile) {
        Option::None => Result::Err(Error::NotFound),
        Option::Some((k, t)) => {
            proof {
                assert(s.edge_matches(k as int, owner, LinkTypes::AgentToProfile));
                assert(s.edge_ok(k as int));
            }
            match resolve_head(s, t) {
                Result::Ok(hd) => {
                    proof {
                        lemma_head_of(*s, t as int);
                        assert(s.entries.len() == s.entries@.len());
                    }
                    s.chain_append(owner, hd, EntryTypes::UserProfile(profile))
                },
                Result::Err(e) => Result::Err(e),
            }
        },
    }
}

/// The documented default privacy settings: security-focused tracking on,
/// a ninety-day activity retention window, and no auto-anonymization.
pub open spec fn default_privacy_settings(now: i64) -> PrivacySettings {
    PrivacySettings {
        track_ip_address: true,
        track_user_agent: true,
        activity_log_retention_days: 90,
        auto_anonymize_after_days: Option::None,
        created_at: now,
        updated_at: now,
    }
}

/// Creates the owner's privacy settings with the documented defaults.
/// Unlike plain creates this one refuses to run when settings already
/// exist, so migration cannot stack duplicate defaults.
pub fn create_default_privacy_settings(s: &mut Store, owner: u64, now: i64) -> (r: Result<
    usize,
    Error,
>)
    requires
        old(s).wf(),
        old(s).entries@.len() < usize::MAX,
    ensures
        final(s).wf(),
        ({
            let pre = *old(s);
            if pre.first_edge_idx(owner, LinkTypes::AgentToPrivacySettings) != -1 {
                r == Result::<usize, Error>::Err(Error::DuplicateState) && *final(s) == pre
            } else {
                r == Result::<usize, Error>::Ok(pre.entries@.len() as usize) && created(
                    pre,
                    *final(s),
                    owner,
                    EntryTypes::PrivacySettings(default_privacy_settings(now)),
                    pre.entries@.len() as int,
                )
            }
        }),
{
    proof {
        s.lemma_first_edge_upto(owner, LinkTypes::AgentToPrivacySettings, s.edges@.len() as int);
        assert(s.entries.len() == s.entries@.len());
    }
    match s.first_edge(owner, LinkTypes::AgentToPrivacySettings) {
        Option::Some(_) => Result::Err(Error::DuplicateState),
        Option::None => {
            let settings = PrivacySettings {
                track_ip_address: true,
                track_user_agent: true,
                activity_log_retention_days: 90,
                auto_anonymize_after_days: Option::None,
                created_at: now,
                updated_at: now,
            };
            Result::Ok(s.create_record(owner, EntryTypes::PrivacySettings(settings)))
        },
    }
}

/// Reads the owner's current privacy settings by resolving the update
/// chain of the first settings edge.
pub fn get_privacy_settings(s: &Store, owner: u64) -> (r: Result<Option<PrivacySettings>, Error>)
    requires
        s.wf(),
    ensures
        ({
            let k = s.first_edge_idx(owner, LinkTypes::AgentToPrivacySettings);
            if k == -1 {
                r == Result::<Option<PrivacySettings>, Error>::Ok(Option::<PrivacySettings>::None)
            } else if chain_ok(*s, s.edge_target(k)) {
                r == Result::<Option<PrivacySettings>, Error>::Ok(
                    Option::Some(crate::types::as_privacy_settings(
                        head_payload(*s, s.edge_target(k)),
                    )),
                )
            } else {
                r == Result::<Option<PrivacySettings>, Error>::Err(Error::ChainBroken)
            }
        }),
{
    proof {
        s.lemma_first_edge_upto(owner, LinkTypes::AgentToPrivacySettings, s.edges@.len() as int);
    }
    match s.first_edge(owner, LinkTypes::AgentToPrivacySettings) {
        Option::None => Result::Ok(Option::None),
        Option::Some((k, t)) => {
            proof {
                assert(s.edge_matches(k as int, owner, LinkTypes::AgentToPrivacySettings));
                assert(s.edge_ok(k as int));
            }
            match resolve_head(s, t) {
                Result::Ok(hd) => {
                    proof {
                        lemma_head_of(*s, t as int);
                        assert(s.entries.len() == s.entries@.len());
                    }
                    match &s.entries[hd].payload {
                        EntryTypes::PrivacySettings(p) => Result::Ok(Option::Some(p.clone())),
                        _ => {
                            proof {
                                assert(false);
                            }
                            Result::Err(Error::ChainBroken)
                        },
                    }
                },
                Result::Err(e) => Result::Err(e),
            }
        },
    }
}

/// Updates the owner's privacy settings by appending a revision to the
/// resolved head of their chain.
pub fn update_privacy_settings(s: &mut Store, owner: u64, settings: PrivacySettings) -> (r: Result<
    usize,
    Error,
>)
    requires
        old(s).wf(),
        old(s).entries@.len() < usize::MAX,
    ensures
        final(s).wf(),
        ({
            let pre = *old(s);
            let k = pre.first_edge_idx(owner, LinkTypes::AgentToPrivacySettings);
            if k == -1 {
                r == Result::<usize, Error>::Err(Error::NotFound) && *final(s) == pre
            } else if !chain_ok(pre, pre.edge_target(k)) {
                r == Result::<usize, Error>::Err(Error::ChainBroken) && *final(s) == pre
            } else if pre.entries@[head_of(pre, pre.edge_target(k))].author != owner {
                r == Result::<usize, Error>::Err(Error::Unauthorized) && *final(s) == pre
            } else {
                r == Result::<usize, Error>::Ok(pre.entries@.len() as usize) && chain_appended(
                    pre,
                    *final(s),
                    head_of(pre, pre.edge_target(k)),
                    EntryTypes::PrivacySettings(settings),
                    owner,
                    pre.entries@.len() as int,
                )
            }
        }),
{
    proof {
        s.lemma_first_edge_upto(owner, LinkTypes::AgentToPrivacySettings, s.edges@.len() as int);
    }
    match s.first_edge(owner, LinkTypes::AgentToPrivacySettings) {
        Option::None => Result::Err(Error::NotFound),
        Option::Some((k, t)) => {
            proof {
                assert(s.edge_matches(k as int, owner, LinkTypes::AgentToPrivacySettings));
                assert(s.edge_ok(k as int));
            }
            match resolve_head(s, t) {
                Result::Ok(hd) => {
                    proof {
                        lemma_head_of(*s, t as int);
                        assert(s.entries.len() == s.entries@.len());
                    }
                    s.chain_append(owner, hd, EntryTypes::PrivacySettings(settings))
                },
                Result::Err(e) => Result::Err(e),
            }
        },
    }
}

/// A successful chain-policy update is read back by the next resolution:
/// the kind's first edge is untouched, its chain stays intact, and the
/// head now carries exactly the revision that was written.
pub proof fn lemma_chain_update_reads_back(
    pre: Store,
    post: Store,
    owner: u64,
    lt: LinkTypes,
    payload: EntryTypes,
    h: int,
)
    requires
        pre.wf(),
        post.wf(),
        pre.first_edge_idx(owner, lt) != -1,
        chain_ok(pre, pre.edge_target(pre.first_edge_idx(owner, lt))),
        chain_appended(
            pre,
            post,
            head_of(pre, pre.edge_target(pre.first_edge_idx(owner, lt))),
            payload,
            owner,
            h,
        ),
    ensures
        post.first_edge_idx(owner, lt) == pre.first_edge_idx(owner, lt),
        post.edge_target(pre.first_edge_idx(owner, lt)) == pre.edge_target(
            pre.first_edge_idx(owner, lt),
        ),
        chain_ok(post, pre.edge_target(pre.first_edge_idx(owner, lt))),
        head_payload(post, pre.edge_target(pre.first_edge_idx(owner, lt))) == payload,
{
    let k = pre.first_edge_idx(owner, lt);
    pre.lemma_first_edge_upto(owner, lt, pre.edges@.len() as int);
    assert(pre.edge_matches(k, owner, lt));
    assert(pre.edge_ok(k));
    let start = pre.edge_target(k);
    crate::resolve::lemma_chain_append_resolves(
        pre,
        post,
        start,
        head_of(pre, start),
        payload,
        owner,
        h,
    );
    assert forall|j: int| 0 <= j < post.edges@.len() implies post.edges@[j] == #[trigger] pre.edges@[
        j
    ] by {}
    lemma_first_edge_same_edges(pre, post, owner, lt, pre.edges@.len() as int);
}

/// Two stores with the same edge table agree on the first matching edge.
proof fn lemma_first_edge_same_edges(s1: Store, s2: Store, owner: u64, lt: LinkTypes, n: int)
    requires
        0 <= n <= s1.edges@.len(),
        s2.edges@ == s1.edges@,
    ensures
        s2.first_edge_upto(owner, lt, n) == s1.first_edge_upto(owner, lt, n),
    decreases n,
{
    if n > 0 {
        lemma_first_edge_same_edges(s1, s2, owner, lt, n - 1);
    }
}

/// The logical timestamp embedded in the recovery phrase that edge slot
/// `k` targets.
pub open spec fn phrase_ts(s: Store, k: int) -> int {
    as_recovery_phrase(s.target_payload(k)).created_at as int
}

/// The edge slot holding the best recovery phrase among the first `n`
/// slots: greatest embedded `created_at`, earliest slot winning ties; `-1`
/// when no slot below `n` matches.  Replace-policy kinds have no chain to
/// walk, and link insertion order cannot be trusted after a repair, so
/// resolution orders by this logical timestamp.
pub open spec fn best_phrase_upto(s: Store, owner: u64, n: int) -> int
    decreases n,
{
    if n <= 0 {
        -1
    } else {
        let prev = best_phrase_upto(s, owner, n - 1);
        if !s.edge_matches(n - 1, owner, LinkTypes::AgentToRecoveryPhrase) {
            prev
        } else if prev == -1 {
            n - 1
        } else if phrase_ts(s, n - 1) > phrase_ts(s, prev) {
            n - 1
        } else {
            prev
        }
    }
}

/// The edge slot that recovery-phrase resolution picks, or `-1` when the
/// owner has no phrase edge.
pub open spec fn best_phrase_edge(s: Store, owner: u64) -> int {
    best_phrase_upto(s, owner, s.edges@.len() as int)
}

/// The picked slot is a matching slot with the greatest timestamp; it is
/// `-1` exactly when no slot matches; and no earlier matching slot reaches
/// its timestamp (the earliest maximum wins).
pub proof fn lemma_best_phrase_upto(s: Store, owner: u64, n: int)
    requires
        0 <= n,
    ensures
        best_phrase_upto(s, owner, n) >= -1,
        best_phrase_upto(s, owner, n) == -1 <==> (forall|k: int|
            0 <= k < n ==> !s.edge_matches(k, owner, LinkTypes::AgentToRecoveryPhrase)),
        best_phrase_upto(s, owner, n) >= 0 ==> {
            let b = best_phrase_upto(s, owner, n);
            &&& s.edge_matches(b, owner, LinkTypes::AgentToRecoveryPhrase)
            &&& b < n
            &&& forall|k: int|
                0 <= k < n && #[trigger] s.edge_matches(k, owner, LinkTypes::AgentToRecoveryPhrase)
                    ==> phrase_ts(s, k) <= phrase_ts(s, b)
            &&& forall|k: int|
                0 <= k < b && #[trigger] s.edge_matches(k, owner, LinkTypes::AgentToRecoveryPhrase)
                    ==> phrase_ts(s, k) < phrase_ts(s, b)
        },
    decreases n,
{
    if n > 0 {
        lemma_best_phrase_upto(s, owner, n - 1);
        let prev = best_phrase_upto(s, owner, n - 1);
        let b = best_phrase_upto(s, owner, n);
        if b >= 0 {
            if prev == -1 {
                assert(b == n - 1);
                assert forall|k: int|
                    0 <= k < n && s.edge_matches(k, owner, LinkTypes::AgentToRecoveryPhrase)
                        implies phrase_ts(s, k) <= phrase_ts(s, b) by {
                    assert(k == n - 1);
                }
                assert forall|k: int|
                    0 <= k < b && s.edge_matches(k, owner, LinkTypes::AgentToRecoveryPhrase)
                        implies phrase_ts(s, k) < phrase_ts(s, b) by {
                    assert(!s.edge_matches(k, owner, LinkTypes::AgentToRecoveryPhrase));
                }
            } else if b == n - 1 {
                assert(s.edge_matches(n - 1, owner, LinkTypes::AgentToRecoveryPhrase));
                assert(phrase_ts(s, n - 1) > phrase_ts(s, prev));
                assert forall|k: int|
                    0 <= k < n && s.edge_matches(k, owner, LinkTypes::AgentToRecoveryPhrase)
                        implies phrase_ts(s, k) <= phrase_ts(s, b) by {
                    if k < n - 1 {
                        assert(phrase_ts(s, k) <= phrase_ts(s, prev));
                    }
                }
                assert forall|k: int|
                    0 <= k < b && s.edge_matches(k, owner, LinkTypes::AgentToRecoveryPhrase)
                        implies phrase_ts(s, k) < phrase_ts(s, b) by {
                    assert(phrase_ts(s, k) <= phrase_ts(s, prev));
                }
            } else {
                assert(b == prev);
                assert forall|k: int|
                    0 <= k < n && s.edge_matches(k, owner, LinkTypes::AgentToRecoveryPhrase)
                        implies phrase_ts(s, k) <= phrase_ts(s, b) by {
                    if k < n - 1 {
                        assert(phrase_ts(s, k) <= phrase_ts(s, prev));
                    } else {
                        assert(!(phrase_ts(s, n - 1) > phrase_ts(s, prev)));
                    }
                }
            }
        }
    }
}

/// Stores an encrypted recovery phrase and links it from the owner key,
/// keeping the caller's embedded timestamp.
pub fn store_recovery_phrase(s: &mut Store, owner: u64, phrase: RecoveryPhrase) -> (h: usize)
    requires
        old(s).wf(),
        old(s).entries@.len() < usize::MAX,
    ensures
        final(s).wf(),
        created(*old(s), *final(s), owner, EntryTypes::RecoveryPhrase(phrase), h as int),
{
    s.create_record(owner, EntryTypes::RecoveryPhrase(phrase))
}

/// Reads the owner's recovery phrase.  A replace-policy kind has no chain:
/// resolution inspects every phrase edge and returns the payload with the
/// greatest embedded `created_at`, so duplicate edges left by partial
/// failures or races are repaired deterministically.  Absence is `None`.
pub fn get_recovery_phrase(s: &Store, owner: u64) -> (r: Option<RecoveryPhrase>)
    requires
        s.wf(),
    ensures
        ({
            let b = best_phrase_edge(*s, owner);
            if b == -1 {
                r == Option::<RecoveryPhrase>::None
            } else {
                r == Option::Some(as_recovery_phrase(s.target_payload(b)))
            }
        }),
{
    let n = s.edges.len();
    let mut k: usize = 0;
    let mut best: Option<(usize, i64)> = Option::None;
    while k < n
        invariant
            s.wf(),
            n == s.edges@.len(),
            k <= n,
            (match best {
                Option::None => best_phrase_upto(*s, owner, k as int) == -1,
                Option::Some(p) => p.0 as int == best_phrase_upto(*s, owner, k as int) && (
                p.0 as int) < k as int && s.edge_matches(
                    p.0 as int,
                    owner,
                    LinkTypes::AgentToRecoveryPhrase,
                ) && p.1 as int == phrase_ts(*s, p.0 as int),
            }),
        decreases n - k,
    {
        let e = &s.edges[k];
        if e.live && e.base == owner && e.link == LinkTypes::AgentToRecoveryPhrase {
            proof {
                assert(s.edge_ok(k as int));
            }
            let ts = match &s.entries[e.target].payload {
                EntryTypes::RecoveryPhrase(rp) => rp.created_at,
                _ => {
                    proof {
                        assert(false);
                    }
                    0
                },
            };
            match best {
                Option::None => {
                    best = Option::Some((k, ts));
                },
                Option::Some(p) => {
                    if ts > p.1 {
                        best = Option::Some((k, ts));
                    }
                },
            }
        }
        k = k + 1;
    }
    match best {
        Option::None => Option::None,
        Option::Some(p) => {
            proof {
                assert(s.edge_ok(p.0 as int));
            }
            match &s.entries[s.edges[p.0].target].payload {
                EntryTypes::RecoveryPhrase(rp) => Option::Some(rp.clone()),
                _ => {
                    proof {
                        assert(false);
                    }
                    Option::None
                },
            }
        },
    }
}

/// The phrase as rewritten by the verification operation: marked verified,
/// with its logical timestamp moved forward to `now` so that resolution
/// recognizes the new entry as newer than whatever it supersedes.
pub open spec fn verified_phrase(p: RecoveryPhrase, now: i64) -> RecoveryPhrase {
    RecoveryPhrase {
        encrypted_mnemonic: p.encrypted_mnemonic,
        nonce: p.nonce,
        salt: p.salt,
        tag: p.tag,
        verified: true,
        created_at: now,
    }
}

/// The phrase as rewritten by a rotation: the caller's new payload with
/// its logical timestamp moved forward to `now`.
pub open spec fn rotated_phrase(p: RecoveryPhrase, now: i64) -> RecoveryPhrase {
    RecoveryPhrase {
        encrypted_mnemonic: p.encrypted_mnemonic,
        nonce: p.nonce,
        salt: p.salt,
        tag: p.tag,
        verified: p.verified,
        created_at: now,
    }
}

/// Marks the owner's recovery phrase verified.  Predecessor linking proved
/// unreliable for this kind, so the mutation is a replace: every phrase
/// edge is removed, a fresh entry with `verified = true` and timestamp
/// `now` is stored, and a single new edge is created.  The superseded
/// entries are not erased; timestamp resolution makes them unreachable.
pub fn mark_recovery_phrase_verified(s: &mut Store, owner: u64, now: i64) -> (r: Result<
    usize,
    Error,
>)
    requires
        old(s).wf(),
        old(s).entries@.len() < usize::MAX,
    ensures
        final(s).wf(),
        ({
            let pre = *old(s);
            let b = best_phrase_edge(pre, owner);
            if b == -1 {
                r == Result::<usize, Error>::Err(Error::NotFound) && *final(s) == pre
            } else {
                r == Result::<usize, Error>::Ok(pre.entries@.len() as usize) && replaced(
                    pre,
                    *final(s),
                    owner,
                    EntryTypes::RecoveryPhrase(
                        verified_phrase(as_recovery_phrase(pre.target_payload(b)), now),
                    ),
                    pre.entries@.len() as int,
                )
            }
        }),
{
    match get_recovery_phrase(s, owner) {
        Option::None => Result::Err(Error::NotFound),
        Option::Some(current) => {
            let fresh = RecoveryPhrase {
                encrypted_mnemonic: current.encrypted_mnemonic,
                nonce: current.nonce,
                salt: current.salt,
                tag: current.tag,
                verified: true,
                created_at: now,
            };
            proof {
                assert(s.entries.len() == s.entries@.len());
            }
            Result::Ok(s.replace_record(owner, EntryTypes::RecoveryPhrase(fresh)))
        },
    }
}

/// Rotates the owner's recovery phrase to a new payload.  Like
/// verification this is a replace, with the timestamp rewritten forward to
/// `now` so the rotated phrase always resolves as current.  Requires an
/// existing phrase.
pub fn update_recovery_phrase(s: &mut Store, owner: u64, phrase: RecoveryPhrase, now: i64) -> (r:
    Result<usize, Error>)
    requires
        old(s).wf(),
        old(s).entries@.len() < usize::MAX,
    ensures
        final(s).wf(),
        ({
            let pre = *old(s);
            let b = best_phrase_edge(pre, owner);
            if b == -1 {
                r == Result::<usize, Error>::Err(Error::NotFound) && *final(s) == pre
            } else {
                r == Result::<usize, Error>::Ok(pre.entries@.len() as usize) && replaced(
                    pre,
                    *final(s),
                    owner,
                    EntryTypes::RecoveryPhrase(rotated_phrase(phrase, now)),
                    pre.entries@.len() as int,
                )
            }
        }),
{
    match get_recovery_phrase(s, owner) {
        Option::None => Result::Err(Error::NotFound),
        Option::Some(_) => {
            let fresh = RecoveryPhrase {
                encrypted_mnemonic: phrase.encrypted_mnemonic,
                nonce: phrase.nonce,
                salt: phrase.salt,
                tag: phrase.tag,
                verified: phrase.verified,
                created_at: now,
            };
            proof {
                assert(s.entries.len() == s.entries@.len());
            }
            Result::Ok(s.replace_record(owner, EntryTypes::RecoveryPhrase(fresh)))
        },
    }
}

/// After any replace-policy mutation of the recovery phrase — verification
/// or rotation — exactly one live phrase edge exists for the owner, and
/// resolution returns the freshly written payload.  When the operation's
/// timestamp exceeds the timestamp of every phrase entry the owner ever
/// created before it (a monotone clock across sequential calls), that
/// payload carries the greatest logical timestamp among all phrase entries
/// ever created for the owner: superseded duplicates can never resolve.
pub proof fn lemma_replace_resolves(pre: Store, post: Store, owner: u64, p: RecoveryPhrase, h: int)
    requires
        pre.wf(),
        post.wf(),
        replaced(pre, post, owner, EntryTypes::RecoveryPhrase(p), h),
    ensures
        post.live_edges(owner, LinkTypes::AgentToRecoveryPhrase) == seq![pre.edges@.len() as int],
        best_phrase_edge(post, owner) == pre.edges@.len() as int,
        as_recovery_phrase(post.target_payload(best_phrase_edge(post, owner))) == p,
        (forall|i: int|
            0 <= i < pre.entries@.len() && pre.entries@[i].author == owner && payload_kind(
                #[trigger] pre.entries@[i].payload,
            ) == RecordKind::RecoveryPhrase ==> as_recovery_phrase(
                pre.entries@[i].payload,
            ).created_at < p.created_at) ==> (forall|i: int|
            0 <= i < post.entries@.len() && post.entries@[i].author == owner && payload_kind(
                #[trigger] post.entries@[i].payload,
            ) == RecordKind::RecoveryPhrase ==> as_recovery_phrase(
                post.entries@[i].payload,
            ).created_at <= p.created_at),
{
    let n = pre.edges@.len() as int;
    let lt = LinkTypes::AgentToRecoveryPhrase;
    assert forall|k: int| 0 <= k < n implies !post.edge_matches(k, owner, lt) by {
        assert(pre.edges@[k] == pre.edges@[k]);
    }
    assert(post.edge_matches(n, owner, lt));
    post.lemma_live_edges_upto(owner, lt, n + 1);
    let le = post.live_edges(owner, lt);
    assert(post.edges@.len() == n + 1);
    assert(le.contains(n));
    assert forall|i: int| 0 <= i < le.len() implies le[i] == n by {
        assert(post.edge_matches(le[i], owner, lt));
    }
    if le.len() >= 2 {
        assert(le[0] < le[1]);
        assert(false);
    }
    assert(le =~= seq![n]);
    lemma_best_phrase_upto(post, owner, n + 1);
    let b = best_phrase_edge(post, owner);
    assert(b >= 0) by {
        assert(post.edge_matches(n, owner, lt));
    }
    assert(post.edge_matches(b, owner, lt));
    assert(b == n);
    assert(h <= usize::MAX as int) by {
        assert(pre.entries.len() == pre.entries@.len());
    }
    assert(post.edge_target(n) == h);
    assert(post.entries@[h] == (crate::store::StoredEntry {
        payload: EntryTypes::RecoveryPhrase(p),
        author: owner,
        deleted: false,
    }));
}

/// Stores a session record and links it from the owner key.
pub fn store_session(s: &mut Store, owner: u64, session: Session) -> (h: usize)
    requires
        old(s).wf(),
        old(s).entries@.len() < usize::MAX,
    ensures
        final(s).wf(),
        created(*old(s), *final(s), owner, EntryTypes::Session(session), h as int),
{
    s.create_record(owner, EntryTypes::Session(session))
}

/// Lists every session still reachable from the owner's session edges, in
/// insertion order.
pub fn get_my_sessions(s: &Store, owner: u64) -> (r: Vec<Session>)
    requires
        s.wf(),
    ensures
        r@.len() == s.live_edges(owner, LinkTypes::AgentToSessions).len(),
        forall|i: int|
            0 <= i < r@.len() ==> #[trigger] r@[i] == as_session(
                s.target_payload(s.live_edges(owner, LinkTypes::AgentToSessions)[i]),
            ),
{
    let mut r: Vec<Session> = Vec::new();
    let n = s.edges.len();
    let mut k: usize = 0;
    while k < n
        invariant
            s.wf(),
            n == s.edges@.len(),
            k <= n,
            r@.len() == s.live_edges_upto(owner, LinkTypes::AgentToSessions, k as int).len(),
            forall|i: int|
                0 <= i < r@.len() ==> #[trigger] r@[i] == as_session(
                    s.target_payload(
                        s.live_edges_upto(owner, LinkTypes::AgentToSessions, k as int)[i],
                    ),
                ),
        decreases n - k,
    {
        let e = &s.edges[k];
        if e.live && e.base == owner && e.link == LinkTypes::AgentToSessions {
            proof {
                assert(s.edge_ok(k as int));
            }
            match &s.entries[e.target].payload {
                EntryTypes::Session(session) => r.push(session.clone()),
                _ => {
                    proof {
                        assert(false);
                    }
                },
            }
        }
        k = k + 1;
    }
    r
}

/// Deletes a session record: the entry is tombstoned and every edge to it
/// removed, so it is no longer reachable, though the blob itself stays
/// physically retrievable by hash.  Rejected when the caller is not the
/// author.
pub fn delete_session(s: &mut Store, caller: u64, h: usize) -> (r: Result<usize, Error>)
    requires
        old(s).wf(),
    ensures
        final(s).wf(),
        ({
            let pre = *old(s);
            if (h as int) >= pre.entries@.len() || pre.entries@[h as int].deleted {
                r == Result::<usize, Error>::Err(Error::NotFound) && *final(s) == pre
            } else if pre.entries@[h as int].author != caller {
                r == Result::<usize, Error>::Err(Error::Unauthorized) && *final(s) == pre
            } else {
                r == Result::<usize, Error>::Ok(h) && crate::store::record_deleted(
                    pre,
                    *final(s),
                    h as int,
                )
            }
        }),
{
    s.delete_record(caller, h)
}

} // verus!

