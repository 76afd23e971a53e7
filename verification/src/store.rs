//! The storage model: a content-addressed entry arena and a link index.
//!
//! Entries are immutable once stored and are only ever logically deleted
//! (tombstoned).  The hash of an entry is modelled as its arena index: the
//! store assigns a fresh hash to every stored revision, so two entries with
//! equal payloads still have distinct hashes.  Successor lists record, in
//! insertion order, which later entries were written as updates of an entry.
//! Edges are the link index: directed, insertion-ordered pointers from an
//! owner key to entry hashes, removed by tombstoning so that edge ids stay
//! stable.

use vstd::prelude::*;
use crate::types::{kind_of, kind_of_link, link_of_kind, link_type_of, payload_kind, EntryTypes,
    Error, LinkTypes};

verus! {

/// One immutable entry of the arena.
pub struct StoredEntry {
    /// The payload of one record kind.
    pub payload: EntryTypes,
    /// The identity that wrote the entry.
    pub author: u64,
    /// Logical deletion mark; the blob stays fetch-able by hash until then.
    pub deleted: bool,
}

/// One edge of the link index: `(base owner key, link type) -> target hash`.
pub struct Edge {
    pub base: u64,
    pub link: LinkTypes,
    pub target: usize,
    /// Edges are removed by clearing this mark, keeping edge ids stable.
    pub live: bool,
}

/// The record store: entry arena, successor adjacency, and link index.
pub struct Store {
    pub entries: Vec<StoredEntry>,
    /// `succs[h]` lists, in insertion order, the entries written as updates
    /// of entry `h`.  Parallel to `entries`.
    pub succs: Vec<Vec<usize>>,
    pub edges: Vec<Edge>,
}

impl Store {
    /// Everything the successor index promises: updates always point
    /// forward in the arena (which rules out cycles) and never change the
    /// record kind.
    pub open spec fn succs_wf(self) -> bool {
        &&& self.succs@.len() == self.entries@.len()
        &&& forall|i: int, j: int|
            0 <= i < self.succs@.len() && 0 <= j < self.succs@[i]@.len() ==> {
                let s = (#[trigger] self.succs@[i]@[j]) as int;
                &&& i < s
                &&& s < self.entries@.len()
                &&& payload_kind(self.entries@[s].payload) == payload_kind(
                    self.entries@[i].payload,
                )
            }
    }

    /// What one edge slot promises: an in-range target and, while the edge
    /// is live, a live target entry of the kind the link type carries.
    pub open spec fn edge_ok(self, k: int) -> bool {
        let e = self.edges@[k];
        &&& (e.target as int) < self.entries@.len()
        &&& (e.live ==> !self.entries@[e.target as int].deleted && payload_kind(
            self.entries@[e.target as int].payload,
        ) == kind_of_link(e.link))
    }

    /// Live edges target pairwise distinct entries: every edge is created
    /// together with a brand-new entry, so two live edges never share a
    /// target even when a singleton kind has duplicate edges.
    pub open spec fn edges_distinct(self) -> bool {
        forall|k1: int, k2: int|
            0 <= k1 < self.edges@.len() && 0 <= k2 < self.edges@.len() && k1 != k2
                && (#[trigger] self.edges@[k1]).live && (#[trigger] self.edges@[k2]).live
                ==> self.edges@[k1].target != self.edges@[k2].target
    }

    /// Well-formedness of the whole store; established by [`Store::new`]
    /// and preserved by every operation.
    pub open spec fn wf(self) -> bool {
        &&& self.succs_wf()
        &&& forall|k: int| 0 <= k < self.edges@.len() ==> #[trigger] self.edge_ok(k)
        &&& self.edges_distinct()
    }

    /// Whether edge slot `k` is a live edge for `(owner, lt)`.
    pub open spec fn edge_matches(self, k: int, owner: u64, lt: LinkTypes) -> bool {
        &&& 0 <= k < self.edges@.len()
        &&& self.edges@[k].live
        &&& self.edges@[k].base == owner
        &&& self.edges@[k].link == lt
    }

    /// The live edge slots for `(owner, lt)` among the first `n` slots, in
    /// insertion order.
    pub open spec fn live_edges_upto(self, owner: u64, lt: LinkTypes, n: int) -> Seq<int>
        decreases n,
    {
        if n <= 0 {
            Seq::empty()
        } else if self.edge_matches(n - 1, owner, lt) {
            self.live_edges_upto(owner, lt, n - 1).push(n - 1)
        } else {
            self.live_edges_upto(owner, lt, n - 1)
        }
    }

    /// All live edge slots for `(owner, lt)`, in insertion order.
    pub open spec fn live_edges(self, owner: u64, lt: LinkTypes) -> Seq<int> {
        self.live_edges_upto(owner, lt, self.edges@.len() as int)
    }

    /// The live edge slots for `(owner, lt)` among slots `m` to `n`
    /// (exclusive), in insertion order.
    pub open spec fn live_edges_between(self, owner: u64, lt: LinkTypes, m: int, n: int) -> Seq<int>
        decreases n - m,
    {
        if n <= m {
            Seq::empty()
        } else if self.edge_matches(n - 1, owner, lt) {
            self.live_edges_between(owner, lt, m, n - 1).push(n - 1)
        } else {
            self.live_edges_between(owner, lt, m, n - 1)
        }
    }

    /// A scan splits at any point: the matches below `n` are the matches
    /// below `m` followed by the matches from `m` to `n`.
    pub proof fn lemma_live_edges_split(self, owner: u64, lt: LinkTypes, m: int, n: int)
        requires
            0 <= m <= n,
        ensures
            self.live_edges_upto(owner, lt, n) == self.live_edges_upto(owner, lt, m)
                + self.live_edges_between(owner, lt, m, n),
        decreases n - m,
    {
        if n <= m {
            assert(self.live_edges_upto(owner, lt, m) + Seq::<int>::empty()
                =~= self.live_edges_upto(owner, lt, m));
        } else {
            self.lemma_live_edges_split(owner, lt, m, n - 1);
            if self.edge_matches(n - 1, owner, lt) {
                assert((self.live_edges_upto(owner, lt, m) + self.live_edges_between(
                    owner,
                    lt,
                    m,
                    n - 1,
                )).push(n - 1) =~= self.live_edges_upto(owner, lt, m) + self.live_edges_between(
                    owner,
                    lt,
                    m,
                    n - 1,
                ).push(n - 1));
            }
        }
    }

    /// When the matching slots in `[m, n)` are exactly the interval
    /// `[a, b)`, the scan of `[m, n)` lists that interval in order.
    pub proof fn lemma_live_edges_window(
        self,
        owner: u64,
        lt: LinkTypes,
        m: int,
        n: int,
        a: int,
        b: int,
    )
        requires
            0 <= m <= n,
            m <= a <= b <= n,
            forall|k: int| m <= k < n ==> (self.edge_matches(k, owner, lt) <==> a <= k < b),
        ensures
            self.live_edges_between(owner, lt, m, n) =~= Seq::new((b - a) as nat, |i: int| a + i),
        decreases n - m,
    {
        if n <= m {
        } else if n - 1 >= b {
            self.lemma_live_edges_window(owner, lt, m, n - 1, a, b);
        } else if a <= n - 1 {
            assert(b == n);
            self.lemma_live_edges_window(owner, lt, m, n - 1, a, n - 1);
        } else {
            assert(a == b);
            self.lemma_live_edges_window(owner, lt, m, n - 1, n - 1, n - 1);
        }
    }

    /// Over a shared prefix of two edge tables, the scans agree.
    pub proof fn lemma_live_edges_prefix_eq(self, other: Store, owner: u64, lt: LinkTypes, n: int)
        requires
            0 <= n <= self.edges@.len(),
            n <= other.edges@.len(),
            forall|k: int| 0 <= k < n ==> #[trigger] other.edges@[k] == self.edges@[k],
        ensures
            other.live_edges_upto(owner, lt, n) == self.live_edges_upto(owner, lt, n),
        decreases n,
    {
        if n > 0 {
            self.lemma_live_edges_prefix_eq(other, owner, lt, n - 1);
        }
    }

    /// The first live edge slot for `(owner, lt)` among the first `n`
    /// slots, or `-1` if there is none.
    pub open spec fn first_edge_upto(self, owner: u64, lt: LinkTypes, n: int) -> int
        decreases n,
    {
        if n <= 0 {
            -1
        } else if self.first_edge_upto(owner, lt, n - 1) >= 0 {
            self.first_edge_upto(owner, lt, n - 1)
        } else if self.edge_matches(n - 1, owner, lt) {
            n - 1
        } else {
            -1
        }
    }

    /// The first live edge slot for `(owner, lt)`, or `-1` if there is none.
    pub open spec fn first_edge_idx(self, owner: u64, lt: LinkTypes) -> int {
        self.first_edge_upto(owner, lt, self.edges@.len() as int)
    }

    /// The target entry of edge slot `k`.
    pub open spec fn edge_target(self, k: int) -> int {
        self.edges@[k].target as int
    }

    /// The payload of the entry that edge slot `k` targets.
    pub open spec fn target_payload(self, k: int) -> EntryTypes {
        self.entries@[self.edge_target(k)].payload
    }

    /// Basic shape of [`Store::live_edges_upto`]: its elements are exactly
    /// the matching slots below `n`, listed in strictly increasing order.
    pub proof fn lemma_live_edges_upto(self, owner: u64, lt: LinkTypes, n: int)
        requires
            0 <= n,
        ensures
            forall|i: int|
                0 <= i < self.live_edges_upto(owner, lt, n).len() ==> {
                    let k = #[trigger] self.live_edges_upto(owner, lt, n)[i];
                    self.edge_matches(k, owner, lt) && k < n
                },
            forall|i: int, j: int|
                0 <= i < j < self.live_edges_upto(owner, lt, n).len()
                    ==> #[trigger] self.live_edges_upto(owner, lt, n)[i]
                    < #[trigger] self.live_edges_upto(owner, lt, n)[j],
            forall|k: int|
                0 <= k < n && self.edge_matches(k, owner, lt) ==> self.live_edges_upto(
                    owner,
                    lt,
                    n,
                ).contains(k),
        decreases n,
    {
        if n > 0 {
            self.lemma_live_edges_upto(owner, lt, n - 1);
            let prev = self.live_edges_upto(owner, lt, n - 1);
            let cur = self.live_edges_upto(owner, lt, n);
            assert forall|i: int|
                0 <= i < cur.len() implies {
                let k = #[trigger] cur[i];
                self.edge_matches(k, owner, lt) && k < n
            } by {
                if i < prev.len() {
                    assert(cur[i] == prev[i]);
                }
            }
            assert forall|i: int, j: int| 0 <= i < j < cur.len() implies #[trigger] cur[i]
                < #[trigger] cur[j] by {
                if j < prev.len() {
                    assert(cur[i] == prev[i] && cur[j] == prev[j]);
                } else {
                    assert(i < prev.len());
                    assert(cur[i] == prev[i]);
                    assert(prev[i] < n - 1);
                }
            }
            assert forall|k: int|
                0 <= k < n && self.edge_matches(k, owner, lt) implies self.live_edges_upto(
                owner,
                lt,
                n,
            ).contains(k) by {
                if k < n - 1 {
                    let prev = self.live_edges_upto(owner, lt, n - 1);
                    let i = choose|i: int| 0 <= i < prev.len() && prev[i] == k;
                    assert(self.live_edges_upto(owner, lt, n)[i] == k);
                } else {
                    let cur = self.live_edges_upto(owner, lt, n);
                    assert(cur[cur.len() - 1] == k);
                }
            }
        }
    }

    /// The first matching slot is a matching slot, nothing below it
    /// matches, and it is `-1` exactly when nothing below `n` matches.
    pub proof fn lemma_first_edge_upto(self, owner: u64, lt: LinkTypes, n: int)
        requires
            0 <= n,
        ensures
            self.first_edge_upto(owner, lt, n) == -1 <==> (forall|k: int|
                0 <= k < n ==> !self.edge_matches(k, owner, lt)),
            self.first_edge_upto(owner, lt, n) >= 0 ==> self.edge_matches(
                self.first_edge_upto(owner, lt, n),
                owner,
                lt,
            ) && self.first_edge_upto(owner, lt, n) < n && (forall|k: int|
                0 <= k < self.first_edge_upto(owner, lt, n) ==> !self.edge_matches(k, owner, lt)),
        decreases n,
    {
        if n > 0 {
            self.lemma_first_edge_upto(owner, lt, n - 1);
        }
    }

    /// A fresh, empty store.
    pub fn new() -> (s: Store)
        ensures
            s.wf(),
            s.entries@.len() == 0,
            s.succs@.len() == 0,
            s.edges@.len() == 0,
    {
        Store { entries: Vec::new(), succs: Vec::new(), edges: Vec::new() }
    }

    /// Fetch by hash: the payload of entry `h`, or `None` when `h` is
    /// unknown or the entry has been deleted.
    pub fn get(&self, h: usize) -> (r: Option<EntryTypes>)
        ensures
            (match r {
                Option::Some(p) => (h as int) < self.entries@.len()
                    && !self.entries@[h as int].deleted && p == self.entries@[h as int].payload,
                Option::None => (h as int) >= self.entries@.len()
                    || self.entries@[h as int].deleted,
            }),
    {
        if h < self.entries.len() && !self.entries[h].deleted {
            Option::Some(self.entries[h].payload.clone())
        } else {
            Option::None
        }
    }

    /// The ordered successor list of entry `h`.
    pub fn successors_of(&self, h: usize) -> (r: &Vec<usize>)
        requires
            (h as int) < self.succs@.len(),
        ensures
            *r == self.succs@[h as int],
    {
        &self.succs[h]
    }

    /// The live edges for `(owner, lt)` as `(edge id, target hash)` pairs,
    /// in insertion order.
    pub fn list_edges(&self, owner: u64, lt: LinkTypes) -> (r: Vec<(usize, usize)>)
        ensures
            r@.len() == self.live_edges(owner, lt).len(),
            forall|i: int|
                0 <= i < r@.len() ==> {
                    let k = self.live_edges(owner, lt)[i];
                    (#[trigger] r@[i]).0 as int == k && r@[i].1 as int == self.edge_target(k)
                },
    {
        let mut r: Vec<(usize, usize)> = Vec::new();
        let n = self.edges.len();
        let mut k: usize = 0;
        while k < n
            invariant
                n == self.edges@.len(),
                k <= n,
                r@.len() == self.live_edges_upto(owner, lt, k as int).len(),
                forall|i: int|
                    0 <= i < r@.len() ==> {
                        let e = self.live_edges_upto(owner, lt, k as int)[i];
                        (#[trigger] r@[i]).0 as int == e && r@[i].1 as int == self.edge_target(e)
                    },
            decreases n - k,
        {
            let e = &self.edges[k];
            if e.live && e.base == owner && e.link == lt {
                r.push((k, e.target));
            }
            k = k + 1;
        }
        r
    }

    /// The first live edge for `(owner, lt)` as an `(edge id, target hash)`
    /// pair, or `None` when the owner has no edge of that link type.
    pub fn first_edge(&self, owner: u64, lt: LinkTypes) -> (r: Option<(usize, usize)>)
        ensures
            (match r {
                Option::Some(p) => p.0 as int == self.first_edge_idx(owner, lt) && p.1 as int
                    == self.edge_target(p.0 as int),
                Option::None => self.first_edge_idx(owner, lt) == -1,
            }),
    {
        let n = self.edges.len();
        let mut k: usize = 0;
        while k < n
            invariant
                n == self.edges@.len(),
                k <= n,
                self.first_edge_upto(owner, lt, k as int) == -1,
            decreases n - k,
        {
            let e = &self.edges[k];
            if e.live && e.base == owner && e.link == lt {
                proof {
                    self.lemma_first_edge_step(owner, lt, k as int);
                }
                return Option::Some((k, e.target));
            }
            k = k + 1;
        }
        Option::None
    }

    /// Extending the scan bound past the first match does not change the
    /// first matching slot.
    pub proof fn lemma_first_edge_step(self, owner: u64, lt: LinkTypes, k: int)
        requires
            0 <= k < self.edges@.len(),
            self.first_edge_upto(owner, lt, k) == -1,
            self.edge_matches(k, owner, lt),
        ensures
            self.first_edge_idx(owner, lt) == k,
        decreases self.edges@.len() - k,
    {
        if k + 1 < self.edges@.len() {
            self.lemma_first_edge_step_helper(owner, lt, k, k + 1);
        }
    }

    /// Helper induction: once the first match below `m` is `k`, it stays
    /// `k` for every larger bound.
    proof fn lemma_first_edge_step_helper(self, owner: u64, lt: LinkTypes, k: int, m: int)
        requires
            0 <= k < m <= self.edges@.len(),
            self.first_edge_upto(owner, lt, m) == k,
        ensures
            self.first_edge_upto(owner, lt, self.edges@.len() as int) == k,
        decreases self.edges@.len() - m,
    {
        if m < self.edges@.len() {
            self.lemma_first_edge_step_helper(owner, lt, k, m + 1);
        }
    }

    /// Removes one edge from the link index; the entry it targeted stays.
    pub fn remove_edge(&mut self, edge_id: usize) -> (r: Result<(), Error>)
        requires
            old(self).wf(),
        ensures
            final(self).wf(),
            ({
                let pre = *old(self);
                if (edge_id as int) < pre.edges@.len() && pre.edges@[edge_id as int].live {
                    r == Result::<(), Error>::Ok(()) && edge_removed(
                        pre,
                        *final(self),
                        edge_id as int,
                    )
                } else {
                    r == Result::<(), Error>::Err(Error::NotFound) && *final(self) == pre
                }
            }),
    {
        if edge_id < self.edges.len() && self.edges[edge_id].live {
            self.edges[edge_id].live = false;
            assert(self.edges@[edge_id as int].live == false);
            assert forall|k: int| 0 <= k < self.edges@.len() implies self.edge_ok(k) by {
                assert(old(self).edge_ok(k));
            }
            Result::Ok(())
        } else {
            Result::Err(Error::NotFound)
        }
    }

    /// Stores a fresh entry of `payload`'s kind for `owner` and links it
    /// with a new edge: the create primitive of the lifecycle.
    pub fn create_record(&mut self, owner: u64, payload: EntryTypes) -> (h: usize)
        requires
            old(self).wf(),
            old(self).entries@.len() < usize::MAX,
        ensures
            final(self).wf(),
            created(*old(self), *final(self), owner, payload, h as int),
    {
        let h = self.entries.len();
        let k = kind_of(&payload);
        let link = link_type_of(k);
        self.entries.push(StoredEntry { payload, author: owner, deleted: false });
        self.succs.push(Vec::new());
        self.edges.push(Edge { base: owner, link, target: h, live: true });
        proof {
            let pre = *old(self);
            let post = *self;
            assert forall|k1: int| 0 <= k1 < post.edges@.len() implies post.edge_ok(k1) by {
                if k1 < pre.edges@.len() {
                    assert(pre.edge_ok(k1));
                }
            }
            assert forall|k1: int, k2: int|
                0 <= k1 < post.edges@.len() && 0 <= k2 < post.edges@.len() && k1 != k2
                    && (#[trigger] post.edges@[k1]).live && (#[trigger] post.edges@[k2]).live
                    implies post.edges@[k1].target != post.edges@[k2].target by {
                if k1 < pre.edges@.len() && k2 < pre.edges@.len() {
                    assert(pre.edges_distinct());
                } else if k1 < pre.edges@.len() {
                    assert(pre.edge_ok(k1));
                } else if k2 < pre.edges@.len() {
                    assert(pre.edge_ok(k2));
                }
            }
        }
        h
    }

    /// Stores a new revision of the record whose current head is entry
    /// `at`, linking it as `at`'s latest successor.  No edge is touched:
    /// resolution finds the new head by walking successors.  Rejected when
    /// the caller is not the author of the revision being updated.
    pub fn chain_append(&mut self, caller: u64, at: usize, payload: EntryTypes) -> (r: Result<
        usize,
        Error,
    >)
        requires
            old(self).wf(),
            (at as int) < old(self).entries@.len(),
            old(self).entries@.len() < usize::MAX,
            payload_kind(payload) == payload_kind(old(self).entries@[at as int].payload),
        ensures
            final(self).wf(),
            ({
                let pre = *old(self);
                if pre.entries@[at as int].author != caller {
                    r == Result::<usize, Error>::Err(Error::Unauthorized) && *final(self) == pre
                } else {
                    r == Result::<usize, Error>::Ok(pre.entries@.len() as usize) && chain_appended(
                        pre,
                        *final(self),
                        at as int,
                        payload,
                        caller,
                        pre.entries@.len() as int,
                    )
                }
            }),
    {
        if self.entries[at].author != caller {
            return Result::Err(Error::Unauthorized);
        }
        let h = self.entries.len();
        self.entries.push(StoredEntry { payload, author: caller, deleted: false });
        self.succs.push(Vec::new());
        self.succs[at].push(h);
        proof {
            let pre = *old(self);
            let post = *self;
            assert(post.succs@[at as int]@ == pre.succs@[at as int]@.push(h));
            assert forall|i: int, j: int|
                0 <= i < post.succs@.len() && 0 <= j < post.succs@[i]@.len() implies {
                let s = (#[trigger] post.succs@[i]@[j]) as int;
                &&& i < s
                &&& s < post.entries@.len()
                &&& payload_kind(post.entries@[s].payload) == payload_kind(
                    post.entries@[i].payload,
                )
            } by {
                if i < pre.succs@.len() {
                    if i == at && j == pre.succs@[i]@.len() {
                    } else {
                        assert(pre.succs@[i]@[j] == post.succs@[i]@[j]);
                    }
                }
            }
            assert forall|k1: int| 0 <= k1 < post.edges@.len() implies post.edge_ok(k1) by {
                assert(pre.edge_ok(k1));
            }
        }
        Result::Ok(h)
    }

    /// Logically deletes entry `h` and removes every edge that targets it,
    /// so the record is no longer reachable from the link index.  Rejected
    /// when the caller is not the entry's author.
    pub fn delete_record(&mut self, caller: u64, h: usize) -> (r: Result<usize, Error>)
        requires
            old(self).wf(),
        ensures
            final(self).wf(),
            ({
                let pre = *old(self);
                if (h as int) >= pre.entries@.len() || pre.entries@[h as int].deleted {
                    r == Result::<usize, Error>::Err(Error::NotFound) && *final(self) == pre
                } else if pre.entries@[h as int].author != caller {
                    r == Result::<usize, Error>::Err(Error::Unauthorized) && *final(self) == pre
                } else {
                    r == Result::<usize, Error>::Ok(h) && record_deleted(
                        pre,
                        *final(self),
                        h as int,
                    )
                }
            }),
    {
        if h >= self.entries.len() || self.entries[h].deleted {
            return Result::Err(Error::NotFound);
        }
        if self.entries[h].author != caller {
            return Result::Err(Error::Unauthorized);
        }
        self.entries[h].deleted = true;
        let n = self.edges.len();
        let mut k: usize = 0;
        while k < n
            invariant
                n == self.edges@.len(),
                k <= n,
                self.entries@.len() == old(self).entries@.len(),
                (h as int) < self.entries@.len(),
                forall|i: int|
                    0 <= i < self.entries@.len() ==> {
                        let e_pre = old(self).entries@[i];
                        let e_post = #[trigger] self.entries@[i];
                        e_post.payload == e_pre.payload && e_post.author == e_pre.author
                            && e_post.deleted == (e_pre.deleted || i == h as int)
                    },
                self.succs@ == old(self).succs@,
                forall|i: int|
                    0 <= i < self.edges@.len() ==> {
                        let e_pre = old(self).edges@[i];
                        let e_post = #[trigger] self.edges@[i];
                        e_post.base == e_pre.base && e_post.link == e_pre.link && e_post.target
                            == e_pre.target && e_post.live == (e_pre.live && !(i < k as int
                            && e_pre.target == h))
                    },
            decreases n - k,
        {
            if self.edges[k].live && self.edges[k].target == h {
                self.edges[k].live = false;
            }
            k = k + 1;
        }
        proof {
            let pre = *old(self);
            let post = *self;
            assert forall|k1: int| 0 <= k1 < post.edges@.len() implies post.edge_ok(k1) by {
                assert(pre.edge_ok(k1));
            }
            assert forall|k1: int, k2: int|
                0 <= k1 < post.edges@.len() && 0 <= k2 < post.edges@.len() && k1 != k2
                    && (#[trigger] post.edges@[k1]).live && (#[trigger] post.edges@[k2]).live
                    implies post.edges@[k1].target != post.edges@[k2].target by {
                assert(pre.edges_distinct());
            }
        }
        Result::Ok(h)
    }

    /// The replace-policy mutation: removes every live `(owner, kind)` edge,
    /// stores a fresh unlinked entry, and links it with a new edge.
    /// Resolution for replace kinds falls back to logical-timestamp
    /// ordering, so duplicates left by partial failures stay harmless.
    pub fn replace_record(&mut self, owner: u64, payload: EntryTypes) -> (h: usize)
        requires
            old(self).wf(),
            old(self).entries@.len() < usize::MAX,
        ensures
            final(self).wf(),
            replaced(*old(self), *final(self), owner, payload, h as int),
    {
        let k = kind_of(&payload);
        let link = link_type_of(k);
        let n = self.edges.len();
        let mut i: usize = 0;
        while i < n
            invariant
                n == self.edges@.len(),
                i <= n,
                self.entries@ == old(self).entries@,
                self.succs@ == old(self).succs@,
                link == link_of_kind(payload_kind(payload)),
                forall|j: int|
                    0 <= j < self.edges@.len() ==> {
                        let e_pre = old(self).edges@[j];
                        let e_post = #[trigger] self.edges@[j];
                        e_post.base == e_pre.base && e_post.link == e_pre.link && e_post.target
                            == e_pre.target && e_post.live == (e_pre.live && !(j < i as int
                            && e_pre.base == owner && e_pre.link == link))
                    },
            decreases n - i,
        {
            if self.edges[i].live && self.edges[i].base == owner && self.edges[i].link == link {
                self.edges[i].live = false;
            }
            i = i + 1;
        }
        let h = self.entries.len();
        self.entries.push(StoredEntry { payload, author: owner, deleted: false });
        self.succs.push(Vec::new());
        self.edges.push(Edge { base: owner, link, target: h, live: true });
        proof {
            let pre = *old(self);
            let post = *self;
            assert forall|k1: int| 0 <= k1 < post.edges@.len() implies post.edge_ok(k1) by {
                if k1 < pre.edges@.len() {
                    assert(pre.edge_ok(k1));
                }
            }
            assert forall|k1: int, k2: int|
                0 <= k1 < post.edges@.len() && 0 <= k2 < post.edges@.len() && k1 != k2
                    && (#[trigger] post.edges@[k1]).live && (#[trigger] post.edges@[k2]).live
                    implies post.edges@[k1].target != post.edges@[k2].target by {
                if k1 < pre.edges@.len() && k2 < pre.edges@.len() {
                    assert(pre.edges_distinct());
                } else if k1 < pre.edges@.len() {
                    assert(pre.edge_ok(k1));
                } else if k2 < pre.edges@.len() {
                    assert(pre.edge_ok(k2));
                }
            }
        }
        h
    }
}

/// Transition relation of [`Store::create_record`]: one entry appended with
/// an empty successor list, one live edge appended pointing at it, nothing
/// else changed.
pub open spec fn created(pre: Store, post: Store, owner: u64, payload: EntryTypes, h: int) -> bool {
    &&& h == pre.entries@.len()
    &&& post.entries@ == pre.entries@.push(
        StoredEntry { payload, author: owner, deleted: false },
    )
    &&& succs_pushed_empty(pre, post)
    &&& post.edges@ == pre.edges@.push(
        Edge {
            base: owner,
            link: link_of_kind(payload_kind(payload)),
            target: h as usize,
            live: true,
        },
    )
}

/// The successor index grew by one empty list; existing lists unchanged.
pub open spec fn succs_pushed_empty(pre: Store, post: Store) -> bool {
    &&& post.succs@.len() == pre.succs@.len() + 1
    &&& forall|i: int| 0 <= i < pre.succs@.len() ==> post.succs@[i] == #[trigger] pre.succs@[i]
    &&& post.succs@[pre.succs@.len() as int]@ == Seq::<usize>::empty()
}

/// Transition relation of [`Store::chain_append`]: one entry appended, its
/// hash appended to the successor list of `at`, edges untouched.
pub open spec fn chain_appended(
    pre: Store,
    post: Store,
    at: int,
    payload: EntryTypes,
    author: u64,
    h: int,
) -> bool {
    &&& h == pre.entries@.len()
    &&& 0 <= at < pre.entries@.len()
    &&& post.entries@ == pre.entries@.push(StoredEntry { payload, author, deleted: false })
    &&& post.succs@.len() == pre.succs@.len() + 1
    &&& forall|i: int|
        0 <= i < pre.succs@.len() && i != at ==> post.succs@[i] == #[trigger] pre.succs@[i]
    &&& post.succs@[at]@ == pre.succs@[at]@.push(h as usize)
    &&& post.succs@[pre.succs@.len() as int]@ == Seq::<usize>::empty()
    &&& post.edges@ == pre.edges@
}

/// Transition relation of [`Store::remove_edge`]: edge `k` tombstoned,
/// everything else unchanged.
pub open spec fn edge_removed(pre: Store, post: Store, k: int) -> bool {
    &&& post.entries@ == pre.entries@
    &&& post.succs@ == pre.succs@
    &&& post.edges@.len() == pre.edges@.len()
    &&& forall|j: int|
        0 <= j < pre.edges@.len() ==> {
            let e_pre = pre.edges@[j];
            let e_post = #[trigger] post.edges@[j];
            e_post.base == e_pre.base && e_post.link == e_pre.link && e_post.target == e_pre.target
                && e_post.live == (e_pre.live && j != k)
        }
}

/// Transition relation of [`Store::delete_record`]: entry `h` tombstoned,
/// every edge targeting it removed, everything else unchanged.
pub open spec fn record_deleted(pre: Store, post: Store, h: int) -> bool {
    &&& post.entries@.len() == pre.entries@.len()
    &&& forall|i: int|
        0 <= i < pre.entries@.len() ==> {
            let e_pre = pre.entries@[i];
            let e_post = #[trigger] post.entries@[i];
            e_post.payload == e_pre.payload && e_post.author == e_pre.author && e_post.deleted == (
            e_pre.deleted || i == h)
        }
    &&& post.succs@ == pre.succs@
    &&& post.edges@.len() == pre.edges@.len()
    &&& forall|j: int|
        0 <= j < pre.edges@.len() ==> {
            let e_pre = pre.edges@[j];
            let e_post = #[trigger] post.edges@[j];
            e_post.base == e_pre.base && e_post.link == e_pre.link && e_post.target == e_pre.target
                && e_post.live == (e_pre.live && e_pre.target as int != h)
        }
}

/// Transition relation of [`Store::replace_record`]: every live
/// `(owner, kind)` edge removed, one entry appended, one live edge appended
/// pointing at it.
pub open spec fn replaced(pre: Store, post: Store, owner: u64, payload: EntryTypes, h: int) -> bool {
    let lt = link_of_kind(payload_kind(payload));
    &&& h == pre.entries@.len()
    &&& post.entries@ == pre.entries@.push(
        StoredEntry { payload, author: owner, deleted: false },
    )
    &&& succs_pushed_empty(pre, post)
    &&& post.edges@.len() == pre.edges@.len() + 1
    &&& forall|j: int|
        0 <= j < pre.edges@.len() ==> {
            let e_pre = pre.edges@[j];
            let e_post = #[trigger] post.edges@[j];
            e_post.base == e_pre.base && e_post.link == e_pre.link && e_post.target == e_pre.target
                && e_post.live == (e_pre.live && !(e_pre.base == owner && e_pre.link == lt))
        }
    &&& post.edges@[pre.edges@.len() as int] == (Edge {
        base: owner,
        link: lt,
        target: h as usize,
        live: true,
    })
}

} // verus!
