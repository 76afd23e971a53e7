//! Chain resolution: walking an update chain forward to its head.
//!
//! Resolution starts from the hash an edge points at and repeatedly moves
//! to the *last-listed* successor — insertion order is the tie-break, the
//! store does not attempt causal merge of concurrent updates — until it
//! reaches the unique entry with no successors, the head.  The walk is
//! well-founded because updates always point forward in the arena.

use vstd::prelude::*;
use crate::store::{chain_appended, Store};
use crate::types::{payload_kind, EntryTypes, Error};

verus! {

/// The successor that resolution follows from entry `h`: the last-listed
/// one.  Meaningful only when `h` has successors.
pub open spec fn chain_next(s: Store, h: int) -> int {
    s.succs@[h]@[s.succs@[h]@.len() - 1] as int
}

/// The head of the update chain beginning at entry `h`: follow the
/// last-listed successor until an entry without successors.
pub open spec fn head_of(s: Store, h: int) -> int
    decreases s.entries@.len() - h,
        when s.wf() && 0 <= h < s.entries@.len()
{
    if s.succs@[h]@.len() == 0 {
        h
    } else {
        head_of(s, chain_next(s, h))
    }
}

/// Whether every entry on the resolution path from `h` to its head can be
/// fetched (has not been deleted).  When false, resolution fails with
/// [`Error::ChainBroken`].
pub open spec fn chain_ok(s: Store, h: int) -> bool
    decreases s.entries@.len() - h,
        when s.wf() && 0 <= h < s.entries@.len()
{
    if s.succs@[h]@.len() == 0 {
        !s.entries@[h].deleted
    } else {
        !s.entries@[h].deleted && chain_ok(s, chain_next(s, h))
    }
}

/// The number of entries on the resolution path from `h` to its head,
/// both included: a fresh record has chain length 1.
pub open spec fn chain_len(s: Store, h: int) -> nat
    decreases s.entries@.len() - h,
        when s.wf() && 0 <= h < s.entries@.len()
{
    if s.succs@[h]@.len() == 0 {
        1
    } else {
        1 + chain_len(s, chain_next(s, h))
    }
}

/// The payload of the head of the chain beginning at `h`.
pub open spec fn head_payload(s: Store, h: int) -> EntryTypes {
    s.entries@[head_of(s, h)].payload
}

/// The head is in range, has no successors, and carries the same record
/// kind as the start of the chain.
pub proof fn lemma_head_of(s: Store, h: int)
    requires
        s.wf(),
        0 <= h < s.entries@.len(),
    ensures
        h <= head_of(s, h) < s.entries@.len(),
        s.succs@[head_of(s, h)]@.len() == 0,
        payload_kind(s.entries@[head_of(s, h)].payload) == payload_kind(s.entries@[h].payload),
    decreases s.entries@.len() - h,
{
    if s.succs@[h]@.len() > 0 {
        lemma_head_of(s, chain_next(s, h));
    }
}

/// Resolves the current value of the record whose chain begins at entry
/// `h`: the payload-bearing head entry, found by walking successors with
/// last-listed-wins tie-breaking.  There is no depth cap: the walk runs to
/// the head however long the chain is, and fails with `ChainBroken` exactly
/// when some entry on the path cannot be fetched.
pub fn resolve_head(s: &Store, h: usize) -> (r: Result<usize, Error>)
    requires
        s.wf(),
        (h as int) < s.entries@.len(),
    ensures
        (if chain_ok(*s, h as int) {
            r == Result::<usize, Error>::Ok(head_of(*s, h as int) as usize)
        } else {
            r == Result::<usize, Error>::Err(Error::ChainBroken)
        }),
    {
    let mut cur: usize = h;
    loop
        invariant
            s.wf(),
            (cur as int) < s.entries@.len(),
            head_of(*s, cur as int) == head_of(*s, h as int),
            chain_ok(*s, cur as int) == chain_ok(*s, h as int),
        decreases s.entries@.len() - cur,
    {
        if s.entries[cur].deleted {
            return Result::Err(Error::ChainBroken);
        }
        let sc = &s.succs[cur];
        if sc.len() == 0 {
            return Result::Ok(cur);
        }
        cur = sc[sc.len() - 1];
    }
}

/// Appending a revision to the head of a chain moves resolution of the
/// whole chain to the new revision and lengthens the chain by exactly one;
/// it cannot break (or repair) the chain.
pub proof fn lemma_chain_append_resolves(
    pre: Store,
    post: Store,
    start: int,
    at: int,
    payload: EntryTypes,
    author: u64,
    h: int,
)
    requires
        pre.wf(),
        post.wf(),
        chain_appended(pre, post, at, payload, author, h),
        0 <= start < pre.entries@.len(),
        head_of(pre, start) == at,
    ensures
        head_of(post, start) == h,
        post.entries@[head_of(post, start)].payload == payload,
        chain_len(post, start) == chain_len(pre, start) + 1,
        chain_ok(post, start) == chain_ok(pre, start),
    decreases pre.entries@.len() - start,
{
    lemma_head_of(pre, start);
    assert(h <= usize::MAX as int) by {
        assert(pre.entries.len() == pre.entries@.len());
    }
    if start == at {
        assert(pre.succs@[at]@.len() == 0);
        assert(post.succs@[at]@ == pre.succs@[at]@.push(h as usize));
        assert(post.succs@[at]@[0] == h as usize);
        assert(chain_next(post, at) == h);
        assert(post.succs@[h]@.len() == 0);
        assert(h < post.entries@.len());
        assert(head_of(post, h) == h);
        assert(chain_len(post, h) == 1);
        assert(!post.entries@[h].deleted);
        assert(chain_ok(post, h));
        assert(head_of(post, at) == h);
        assert(chain_len(post, at) == 2);
        assert(chain_len(pre, at) == 1);
        assert(post.entries@[at] == pre.entries@[at]);
        assert(chain_ok(post, at) == !post.entries@[at].deleted);
        assert(chain_ok(pre, at) == !pre.entries@[at].deleted);
    } else {
        assert(pre.succs@[start]@.len() > 0);
        let nxt = chain_next(pre, start);
        assert(start < nxt < pre.entries@.len());
        assert(head_of(pre, nxt) == at);
        assert(post.succs@[start] == pre.succs@[start]);
        assert(chain_next(post, start) == nxt);
        lemma_chain_append_resolves(pre, post, nxt, at, payload, author, h);
        assert(post.entries@[start] == pre.entries@[start]);
    }
}

/// The general shape of a run of sequential chain updates: given the trace
/// of stores produced by updating the resolved head N times in a row, the
/// final resolution returns exactly the Nth-written payload, the chain has
/// grown by exactly N entries — no revision is lost to a cycle or an
/// orphaned branch — and the chain stays intact throughout.
pub proof fn lemma_chain_of_updates(ss: Seq<Store>, start: int, ps: Seq<EntryTypes>, author: u64)
    requires
        ss.len() == ps.len() + 1,
        forall|i: int| 0 <= i < ss.len() ==> (#[trigger] ss[i]).wf(),
        0 <= start < ss[0].entries@.len(),
        chain_ok(ss[0], start),
        forall|i: int|
            0 <= i < ps.len() ==> chain_appended(
                ss[i],
                ss[i + 1],
                head_of(ss[i], start),
                #[trigger] ps[i],
                author,
                ss[i].entries@.len() as int,
            ),
    ensures
        0 <= start < ss[ss.len() - 1].entries@.len(),
        chain_ok(ss[ss.len() - 1], start),
        chain_len(ss[ss.len() - 1], start) == chain_len(ss[0], start) + ps.len(),
        ps.len() > 0 ==> head_of(ss[ss.len() - 1], start) == ss[ps.len() - 1].entries@.len()
            && head_payload(ss[ss.len() - 1], start) == ps[ps.len() - 1],
    decreases ps.len(),
{
    if ps.len() > 0 {
        let n = ps.len() as int;
        let prefix = ss.drop_last();
        let psp = ps.drop_last();
        assert forall|i: int| 0 <= i < prefix.len() implies (#[trigger] prefix[i]).wf() by {
            assert(prefix[i] == ss[i]);
        }
        assert forall|i: int|
            0 <= i < psp.len() implies chain_appended(
            prefix[i],
            prefix[i + 1],
            head_of(prefix[i], start),
            #[trigger] psp[i],
            author,
            prefix[i].entries@.len() as int,
        ) by {
            assert(prefix[i] == ss[i]);
            assert(prefix[i + 1] == ss[i + 1]);
            assert(psp[i] == ps[i]);
        }
        lemma_chain_of_updates(prefix, start, psp, author);
        let pre = ss[n - 1];
        let post = ss[n];
        assert(prefix[prefix.len() - 1] == pre);
        assert(chain_appended(
            pre,
            post,
            head_of(pre, start),
            ps[n - 1],
            author,
            pre.entries@.len() as int,
        ));
        lemma_chain_append_resolves(
            pre,
            post,
            start,
            head_of(pre, start),
            ps[n - 1],
            author,
            pre.entries@.len() as int,
        );
    }
}

} // verus!
