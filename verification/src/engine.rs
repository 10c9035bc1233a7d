//! The index engine: one writer buffers mutations and publishes them as a
//! single atomic commit, while readers only ever see the state of the last
//! commit. This write/snapshot separation is what lets one batching
//! mutator coexist with any number of concurrent readers.

use vstd::prelude::*;
use crate::index::Index;
use crate::index::IndexError;
use crate::index::IndexItem;
use crate::index::ItemView;
use crate::index::distinct_seq;
use crate::index::item_of_path;

verus! {

/// A buffered change awaiting commit.
pub enum Mutation {
    Insert(IndexItem),
    Delete(IndexItem),
}

/// The mathematical content of a [`Mutation`].
pub enum MutationView {
    Insert(ItemView),
    Delete(ItemView),
}

impl View for Mutation {
    type V = MutationView;

    open spec fn view(&self) -> MutationView {
        match self {
            Mutation::Insert(it) => MutationView::Insert(it@),
            Mutation::Delete(it) => MutationView::Delete(it@),
        }
    }
}

impl DeepView for Mutation {
    type V = MutationView;

    open spec fn deep_view(&self) -> MutationView {
        self@
    }
}

/// Whether token `k` maps to identity `v` once the mutations of `muts`
/// have been applied to `base`, oldest first.
pub open spec fn after_muts(
    base: Index,
    muts: Seq<MutationView>,
    k: Seq<char>,
    v: Seq<char>,
) -> bool
    decreases muts.len(),
{
    if muts.len() == 0 {
        base.maps_to(k, v)
    } else {
        let prev = after_muts(base, muts.drop_last(), k, v);
        match muts.last() {
            MutationView::Insert(it) => prev || (it.keys.contains(k) && v == it.value),
            MutationView::Delete(it) => prev && !(it.keys.contains(k) && v == it.value),
        }
    }
}

/// The engine. Its visible state is the pair of the last committed index
/// and the buffer of mutations accumulated since, in arrival order.
pub struct IndexEngine {
    snap: Index,
    buffer: Vec<Mutation>,
}

impl IndexEngine {
    /// The last committed index: the state every read sees.
    pub closed spec fn committed(self) -> Index {
        self.snap
    }

    /// The mutations buffered since the last commit, oldest first.
    pub closed spec fn pending(self) -> Seq<MutationView> {
        self.buffer.deep_view()
    }

    /// A fresh engine: nothing committed, nothing buffered.
    pub fn new() -> (e: IndexEngine)
        ensures
            e.pending() == Seq::<MutationView>::empty(),
            forall|k: Seq<char>, v: Seq<char>| !e.committed().maps_to(k, v),
    {
        let e = IndexEngine { snap: Index::new(), buffer: Vec::new() };
        proof {
            assert(e.buffer.deep_view() =~= Seq::<MutationView>::empty());
        }
        e
    }

    /// Buffers an insert of `item`. Nothing becomes visible to readers
    /// until the next commit.
    pub fn insert(&mut self, item: IndexItem)
        ensures
            final(self).committed() == old(self).committed(),
            final(self).pending() == old(self).pending().push(MutationView::Insert(item@)),
    {
        let ghost before = self.buffer.deep_view();
        let ghost mv = MutationView::Insert(item@);
        self.buffer.push(Mutation::Insert(item));
        proof {
            assert(self.buffer.deep_view() =~= before.push(mv));
        }
    }

    /// Buffers a delete of the document whose identity is `identity`; its
    /// keys are re-derived from the identity. Deleting an absent document
    /// is a no-op at commit time, not an error. Nothing becomes visible to
    /// readers until the next commit.
    pub fn delete(&mut self, identity: &str)
        ensures
            final(self).committed() == old(self).committed(),
            final(self).pending() == old(self).pending().push(
                MutationView::Delete(item_of_path(identity@)),
            ),
    {
        let ghost before = self.buffer.deep_view();
        let item = IndexItem::from_path(identity);
        let ghost mv = MutationView::Delete(item@);
        self.buffer.push(Mutation::Delete(item));
        proof {
            assert(self.buffer.deep_view() =~= before.push(mv));
        }
    }

    /// Atomically publishes every buffered mutation, in arrival order, as
    /// the new committed state. Readers see either the old state or the
    /// whole batch, never part of it. The in-memory realization has no
    /// storage to fail against, so the commit always succeeds.
    pub fn commit(&mut self) -> (r: Result<(), IndexError>)
        ensures
            r is Ok,
            final(self).pending() == Seq::<MutationView>::empty(),
            forall|k: Seq<char>, v: Seq<char>|
                final(self).committed().maps_to(k, v) <==> after_muts(
                    old(self).committed(),
                    old(self).pending(),
                    k,
                    v,
                ),
    {
        let ghost base = self.snap;
        let ghost all = self.buffer.deep_view();
        let mut muts: Vec<Mutation> = Vec::new();
        core::mem::swap(&mut muts, &mut self.buffer);
        let ghost mut done: int = 0;
        while muts.len() > 0
            invariant
                0 <= done,
                done + muts@.len() == all.len(),
                muts.deep_view() == all.skip(done),
                forall|k: Seq<char>, v: Seq<char>|
                    self.snap.maps_to(k, v) <==> after_muts(base, all.take(done), k, v),
                self.buffer@.len() == 0,
            decreases muts@.len(),
        {
            let ghost pre = self.snap;
            let ghost vb = muts@;
            let ghost mrem = muts.deep_view();
            let m = muts.remove(0);
            proof {
                assert(mrem[0] == vb[0].deep_view());
                assert(m@ == mrem[0]);
                assert(all.skip(done)[0] == all[done]);
                assert(m@ == all[done]);
                assert forall|j: int| 0 <= j < muts@.len() implies muts.deep_view()[j]
                    == all.skip(done + 1)[j] by {
                    assert(muts@[j] == vb[j + 1]);
                    assert(muts.deep_view()[j] == muts@[j].deep_view());
                    assert(mrem[j + 1] == vb[j + 1].deep_view());
                    assert(all.skip(done)[j + 1] == all[done + 1 + j]);
                    assert(all.skip(done + 1)[j] == all[done + 1 + j]);
                }
                assert(muts.deep_view() =~= all.skip(done + 1));
            }
            match m {
                Mutation::Insert(it) => {
                    let _ = self.snap.insert(it);
                },
                Mutation::Delete(it) => {
                    let _ = self.snap.remove(it);
                },
            }
            proof {
                assert(all.take(done + 1).drop_last() =~= all.take(done));
                assert(all.take(done + 1).last() == all[done]);
                assert forall|k: Seq<char>, v: Seq<char>|
                    self.snap.maps_to(k, v) <==> after_muts(base, all.take(done + 1), k, v) by {
                    assert(pre.maps_to(k, v) <==> after_muts(base, all.take(done), k, v));
                }
                done = done + 1;
            }
        }
        proof {
            assert(all.take(done) =~= all);
            assert(self.buffer.deep_view() =~= Seq::<MutationView>::empty());
        }
        Ok(())
    }

    /// Answers a free-text query against the last committed state only:
    /// the buffer is never consulted, so an in-flight batch is invisible.
    pub fn query(&self, q: &str) -> (r: Result<Vec<String>, IndexError>)
        ensures
            r is Ok,
            distinct_seq(r->Ok_0.deep_view()),
            forall|v: Seq<char>|
                r->Ok_0.deep_view().contains(v) <==> self.committed().matches(q@, v),
    {
        self.snap.query(q)
    }

    /// An independent copy of the last committed state. A reader that
    /// takes a snapshot answers against it alone: whatever the engine
    /// buffers or commits afterwards cannot change it.
    pub fn snapshot(&self) -> (s: Index)
        ensures
            forall|k: Seq<char>, v: Seq<char>|
                s.maps_to(k, v) <==> self.committed().maps_to(k, v),
    {
        self.snap.duplicate()
    }
}

/// Inserting a document twice is the same as inserting it once: a batch
/// that repeats an insert commits to exactly the state of the batch with
/// the repetition dropped.
pub proof fn lemma_insert_idempotent(
    base: Index,
    muts: Seq<MutationView>,
    it: ItemView,
    k: Seq<char>,
    v: Seq<char>,
)
    ensures
        after_muts(base, muts.push(MutationView::Insert(it)).push(MutationView::Insert(it)), k, v)
            == after_muts(base, muts.push(MutationView::Insert(it)), k, v),
{
    let one = muts.push(MutationView::Insert(it));
    let two = one.push(MutationView::Insert(it));
    assert(two.drop_last() =~= one);
    assert(one.drop_last() =~= muts);
}

/// Inserting a document and then deleting it, committed in one batch,
/// leaves none of its keys mapping to its identity.
pub proof fn lemma_insert_then_delete(
    base: Index,
    muts: Seq<MutationView>,
    it: ItemView,
    k: Seq<char>,
)
    requires
        it.keys.contains(k),
    ensures
        !after_muts(
            base,
            muts.push(MutationView::Insert(it)).push(MutationView::Delete(it)),
            k,
            it.value,
        ),
{
    let one = muts.push(MutationView::Insert(it));
    let two = one.push(MutationView::Delete(it));
    assert(two.drop_last() =~= one);
    assert(one.drop_last() =~= muts);
}

/// A rename, committed as the one batch delete(src) + insert(dst), never
/// leaves both old and new document visible, and never leaves both
/// absent: every key of `dst` maps to `dst`'s identity, and no key of
/// `src` maps to `src`'s identity — unless that very pair is also one of
/// `dst`'s, in which case it stays by virtue of the insert.
pub proof fn lemma_rename_atomic(
    base: Index,
    muts: Seq<MutationView>,
    src: ItemView,
    dst: ItemView,
    k: Seq<char>,
)
    ensures
        dst.keys.contains(k) ==> after_muts(
            base,
            muts.push(MutationView::Delete(src)).push(MutationView::Insert(dst)),
            k,
            dst.value,
        ),
        src.keys.contains(k) && !(dst.keys.contains(k) && src.value == dst.value)
            ==> !after_muts(
            base,
            muts.push(MutationView::Delete(src)).push(MutationView::Insert(dst)),
            k,
            src.value,
        ),
{
    let one = muts.push(MutationView::Delete(src));
    let two = one.push(MutationView::Insert(dst));
    assert(two.drop_last() =~= one);
    assert(one.drop_last() =~= muts);
    if src.keys.contains(k) && !(dst.keys.contains(k) && src.value == dst.value) {
        assert(!after_muts(base, one, k, src.value));
        assert(!after_muts(base, two, k, src.value));
    }
}

} // verus!
