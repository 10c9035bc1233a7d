//! The indexing pipeline: the sole mutator of the engine. It turns
//! walked entries and watcher events into buffered mutations and decides
//! when to commit: a commit is forced after each root's initial walk,
//! when the count of mutations since the last commit reaches the batching
//! threshold, and on an idle receive timeout with uncommitted mutations.

use vstd::prelude::*;
use crate::engine::IndexEngine;
use crate::engine::MutationView;
use crate::engine::after_muts;
use crate::index::IndexError;
use crate::index::IndexItem;
use crate::index::item_of_path;
use crate::watcher::WatchEvent;
use crate::watcher::WatchEventView;
use crate::watcher::WatcherError;

verus! {

/// The batching threshold: this many mutations since the last commit
/// force one without waiting for an idle period.
pub const COMMIT_THRESHOLD: u64 = 1000;

/// The terminal failures of the pipeline.
#[derive(Debug)]
pub enum IndexerError {
    /// The engine failed a commit; the pipeline does not continue.
    Engine(IndexError),
    /// Root validation failed before any watching began.
    Watcher(WatcherError),
    /// The event channel from the watcher disconnected.
    WatcherRx,
}

impl From<WatcherError> for IndexerError {
    fn from(e: WatcherError) -> (r: Self) {
        IndexerError::Watcher(e)
    }
}

impl vstd::std_specs::convert::FromSpecImpl<WatcherError> for IndexerError {
    open spec fn obeys_from_spec() -> bool {
        true
    }

    open spec fn from_spec(e: WatcherError) -> Self {
        IndexerError::Watcher(e)
    }
}

/// The mutations one logical event contributes, in order: a rename is
/// the one unit delete-then-insert, never two independently visible
/// halves.
pub open spec fn muts_of_event(ev: WatchEventView) -> Seq<MutationView> {
    match ev {
        WatchEventView::Create(p) => seq![MutationView::Insert(item_of_path(p))],
        WatchEventView::Remove(p) => seq![MutationView::Delete(item_of_path(p))],
        WatchEventView::Rename(s, d) => seq![
            MutationView::Delete(item_of_path(s)),
            MutationView::Insert(item_of_path(d)),
        ],
    }
}

/// The pipeline: the engine it alone mutates, and the count of
/// mutations applied since the last commit.
pub struct Indexer {
    eng: IndexEngine,
    count: u64,
}

impl Indexer {
    /// The engine under the pipeline's exclusive control.
    pub closed spec fn engine(self) -> IndexEngine {
        self.eng
    }

    /// How many mutations have been applied since the last commit.
    pub closed spec fn pending_count(self) -> u64 {
        self.count
    }

    /// A pipeline over `engine`, with no mutation counted yet.
    pub fn new(engine: IndexEngine) -> (ix: Indexer)
        ensures
            ix.engine() == engine,
            ix.pending_count() == 0,
    {
        Indexer { eng: engine, count: 0 }
    }

    /// Buffers an insert for one walked entry. Walk inserts do not count
    /// toward the batching threshold; the walk commits per root instead.
    pub fn index_path(&mut self, path: &str)
        ensures
            final(self).engine().committed() == old(self).engine().committed(),
            final(self).engine().pending() == old(self).engine().pending().push(
                MutationView::Insert(item_of_path(path@)),
            ),
            final(self).pending_count() == old(self).pending_count(),
    {
        let item = IndexItem::from_path(path);
        self.eng.insert(item);
    }

    /// Ingests one root's walked entries and then forces a commit,
    /// bounding the staleness of the initial state to one root's walk:
    /// afterwards everything buffered before plus one insert per entry,
    /// in walk order, is visible.
    pub fn index_root(&mut self, entries: &Vec<String>) -> (r: Result<(), IndexerError>)
        ensures
            r is Ok,
            final(self).engine().pending() == Seq::<MutationView>::empty(),
            final(self).pending_count() == 0,
            forall|k: Seq<char>, v: Seq<char>|
                final(self).engine().committed().maps_to(k, v) <==> after_muts(
                    old(self).engine().committed(),
                    old(self).engine().pending() + entries.deep_view().map_values(
                        |p: Seq<char>| MutationView::Insert(item_of_path(p)),
                    ),
                    k,
                    v,
                ),
    {
        let ghost inserted = entries.deep_view().map_values(
            |p: Seq<char>| MutationView::Insert(item_of_path(p)),
        );
        let ghost pending0 = self.eng.pending();
        let n = entries.len();
        let mut i: usize = 0;
        while i < n
            invariant
                n == entries@.len(),
                i <= n,
                self.eng.committed() == old(self).engine().committed(),
                self.eng.pending() == pending0 + entries.deep_view().take(i as int).map_values(
                    |p: Seq<char>| MutationView::Insert(item_of_path(p)),
                ),
                self.count == old(self).count,
            decreases n - i,
        {
            let item = IndexItem::from_path(entries[i].as_str());
            self.eng.insert(item);
            proof {
                assert(entries.deep_view().take(i + 1).map_values(
                    |p: Seq<char>| MutationView::Insert(item_of_path(p)),
                ) =~= entries.deep_view().take(i as int).map_values(
                    |p: Seq<char>| MutationView::Insert(item_of_path(p)),
                ).push(MutationView::Insert(item_of_path(entries@[i as int]@))));
            }
            i += 1;
        }
        proof {
            assert(entries.deep_view().take(n as int) =~= entries.deep_view());
            assert(self.eng.pending() == pending0 + inserted);
        }
        let r = self.eng.commit();
        match r {
            Ok(()) => {
                self.count = 0;
                Ok(())
            },
            Err(e) => Err(IndexerError::Engine(e)),
        }
    }

    /// Applies one logical event to the buffer and advances the count of
    /// mutations since the last commit. While the count stays under the
    /// batching threshold and no idle period has elapsed, nothing is
    /// committed; the count reaching the threshold forces one commit of
    /// everything buffered, a rename going as one unit.
    pub fn on_event(&mut self, ev: WatchEvent) -> (r: Result<(), IndexerError>)
        ensures
            r is Ok,
            ({
                let muts = old(self).engine().pending() + muts_of_event(ev@);
                &&& (old(self).pending_count() + 1 < COMMIT_THRESHOLD ==> {
                    &&& final(self).engine().committed() == old(self).engine().committed()
                    &&& final(self).engine().pending() == muts
                    &&& final(self).pending_count() == old(self).pending_count() + 1
                })
                &&& (old(self).pending_count() + 1 >= COMMIT_THRESHOLD ==> {
                    &&& forall|k: Seq<char>, v: Seq<char>|
                        final(self).engine().committed().maps_to(k, v) <==> after_muts(
                            old(self).engine().committed(),
                            muts,
                            k,
                            v,
                        )
                    &&& final(self).engine().pending() == Seq::<MutationView>::empty()
                    &&& final(self).pending_count() == 0
                })
            }),
    {
        let ghost pending0 = self.eng.pending();
        match ev {
            WatchEvent::Create(p) => {
                let item = IndexItem::from_path(p.as_str());
                self.eng.insert(item);
            },
            WatchEvent::Remove(p) => {
                self.eng.delete(p.as_str());
            },
            WatchEvent::Rename(src, dst) => {
                self.eng.delete(src.as_str());
                let item = IndexItem::from_path(dst.as_str());
                self.eng.insert(item);
            },
        }
        proof {
            assert(self.eng.pending() =~= pending0 + muts_of_event(ev@));
        }
        if self.count >= COMMIT_THRESHOLD - 1 {
            let r = self.eng.commit();
            match r {
                Ok(()) => {
                    self.count = 0;
                    Ok(())
                },
                Err(e) => Err(IndexerError::Engine(e)),
            }
        } else {
            self.count = self.count + 1;
            Ok(())
        }
    }

    /// Handles a receive timeout: an idle flush. A timeout with
    /// mutations applied since the last commit triggers exactly one
    /// commit; one without leaves the pipeline untouched, so a further
    /// timeout commits nothing.
    pub fn on_timeout(&mut self) -> (r: Result<(), IndexerError>)
        ensures
            r is Ok,
            old(self).pending_count() > 0 ==> {
                &&& forall|k: Seq<char>, v: Seq<char>|
                    final(self).engine().committed().maps_to(k, v) <==> after_muts(
                        old(self).engine().committed(),
                        old(self).engine().pending(),
                        k,
                        v,
                    )
                &&& final(self).engine().pending() == Seq::<MutationView>::empty()
                &&& final(self).pending_count() == 0
            },
            old(self).pending_count() == 0 ==> *final(self) == *old(self),
    {
        if self.count > 0 {
            let r = self.eng.commit();
            match r {
                Ok(()) => {
                    self.count = 0;
                    Ok(())
                },
                Err(e) => Err(IndexerError::Engine(e)),
            }
        } else {
            Ok(())
        }
    }

    /// A read-only view of the engine, for the read path to answer from.
    pub fn engine_ref(&self) -> (e: &IndexEngine)
        ensures
            *e == self.engine(),
    {
        &self.eng
    }
}

} // verus!
