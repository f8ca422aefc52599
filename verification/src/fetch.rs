//! The fetch job: resolves each requested item to an outcome — cache hit,
//! verified download, or an item-scoped failure — and ends in exactly one
//! terminal message.  Item-scoped failures never abort the job; only an
//! infrastructure failure escalates to the one exception.

use vstd::prelude::*;

use crate::cache::CacheIndex;
use crate::checksum::ChecksumKey;
use crate::errors::ErrorKind;
use crate::method::{items_model, Method};
use crate::reply::{Exception, ItemOutcome, OutcomeModel, Reply, ReplyEntry, ReplyEntryModel,
    Signal};

verus! {

/// What the runner outside reports for one item it was asked to download.
#[derive(Debug)]
pub enum ItemEvent {
    /// The download completed; its bytes hashed to `digest` (lowercase hex)
    /// and were staged at `path`.
    Downloaded { digest: Vec<u8>, path: Vec<u8> },
    /// The item's named secret could not be resolved.
    SecretMissing,
    /// The download itself failed.
    DownloadFailed,
}

/// The one terminal message of a job.
#[derive(Debug)]
pub enum Terminal {
    Success(Reply),
    Failure(Exception),
}

/// The models of the outcomes recorded so far.
pub open spec fn outcome_models(outcomes: Seq<ReplyEntry>) -> Seq<ReplyEntryModel> {
    Seq::new(outcomes.len(), |i: int| outcomes[i]@)
}

/// The state of one fetch job.
#[derive(Debug)]
pub struct FetchJob {
    pub items: Vec<crate::method::FetchItem>,
    pub next: usize,
    pub outcomes: Vec<ReplyEntry>,
    pub cache: CacheIndex,
    pub failed: Option<ErrorKind>,
}

impl FetchJob {
    /// The job invariant: outcomes cover exactly the items before `next`,
    /// key for key and in order; keys are well formed and pairwise distinct;
    /// a recorded job failure is never item-scoped.
    pub open spec fn wf(self) -> bool {
        &&& self.next <= self.items@.len()
        &&& self.outcomes@.len() == self.next
        &&& forall|i: int|
            0 <= i < self.next ==> (#[trigger] self.outcomes@[i])@.key == self.items@[i]@.key
        &&& forall|i: int| 0 <= i < self.items@.len() ==> (#[trigger] self.items@[i]).key.wf()
        &&& forall|i: int, j: int|
            0 <= i < j < self.items@.len() ==> self.items@[i].key.text()
                != self.items@[j].key.text()
        &&& self.cache.wf()
        &&& match self.failed {
            Some(k) => !k.is_item_scoped(),
            None => true,
        }
    }

    /// Whether every item has an outcome.
    pub open spec fn complete(self) -> bool {
        self.next == self.items@.len()
    }

    /// Starts a job for a schema-checked request against a cache index.
    pub fn new(m: Method, cache: CacheIndex) -> (j: FetchJob)
        requires
            m.wf(),
            forall|i: int| 0 <= i < m.items@.len() ==> (#[trigger] m.items@[i]).key.wf(),
            cache.wf(),
        ensures
            j.wf(),
            j.next == 0,
            j.failed is None,
            items_model(j.items@) == m@.items,
            j.cache == cache,
            j.outcomes@.len() == 0,
    {
        let j = FetchJob { items: m.items, next: 0, outcomes: Vec::new(), cache, failed: None };
        proof {
            assert(items_model(j.items@) =~= m@.items);
            assert forall|i: int, x: int|
                0 <= i < x < j.items@.len() implies j.items@[i].key.text()
                != j.items@[x].key.text() by {
                assert(m@.items[i].key == j.items@[i].key.text());
                assert(m@.items[x].key == j.items@[x].key.text());
            }
        }
        j
    }

    /// The key of the item now being resolved.
    pub open spec fn current_key(self) -> ChecksumKey
        recommends
            self.next < self.items@.len(),
    {
        self.items@[self.next as int].key
    }

    /// Resolves the current item from the cache alone.  A hit records the
    /// cached path as the item's outcome with no download at all and hands
    /// back the progress signal to emit; a miss changes nothing and the item
    /// needs a download.
    pub fn try_cache(&mut self) -> (r: Option<Signal>)
        requires
            old(self).wf(),
            old(self).failed is None,
            old(self).next < old(self).items@.len(),
        ensures
            final(self).wf(),
            final(self).items@ == old(self).items@,
            final(self).cache == old(self).cache,
            final(self).failed is None,
            match r {
                Some(sg) => {
                    &&& !crate::cache::needs_download(old(self).cache, old(self).current_key())
                    &&& final(self).next == old(self).next + 1
                    &&& outcome_models(final(self).outcomes@) == outcome_models(
                        old(self).outcomes@,
                    ).push(
                        ReplyEntryModel {
                            key: old(self).current_key().text(),
                            outcome: OutcomeModel::Cached {
                                path: old(self).cache.path_of(old(self).current_key().text()),
                            },
                        },
                    )
                    &&& sg.key.text() == old(self).current_key().text()
                    &&& sg.outcome@ == OutcomeModel::Cached {
                        path: old(self).cache.path_of(old(self).current_key().text()),
                    }
                },
                None => {
                    &&& crate::cache::needs_download(old(self).cache, old(self).current_key())
                    &&& *final(self) == *old(self)
                },
            },
    {
        let ghost o = *self;
        let key = self.items[self.next].key.clone_key();
        match self.cache.lookup(&key) {
            Some(path) => {
                let sg_path = crate::bytes::copy_bytes(&path);
                let outcome = ItemOutcome::Cached { path };
                let entry = ReplyEntry { key: key.clone_key(), outcome };
                self.outcomes.push(entry);
                let nlen = self.items.len();
                proof {
                    assert(self.next < nlen);
                }
                self.next = self.next + 1;
                let sg = Signal {
                    key,
                    outcome: ItemOutcome::Cached { path: sg_path },
                };
                proof {
                    assert(outcome_models(self.outcomes@) =~= outcome_models(o.outcomes@).push(
                        ReplyEntryModel {
                            key: o.current_key().text(),
                            outcome: OutcomeModel::Cached {
                                path: o.cache.path_of(o.current_key().text()),
                            },
                        },
                    ));
                }
                Some(sg)
            },
            None => None,
        }
    }

    /// Records what the runner's download attempt produced for the current
    /// item.  The digest of downloaded bytes is compared against the item's
    /// declared checksum: on a match the content's path is published in the
    /// cache and the item succeeds; on a mismatch the item fails with a
    /// checksum mismatch and nothing is published.  A missing secret or a
    /// failed download likewise fail the item alone.  No event here marks
    /// the job failed or touches any earlier outcome: one item's failure
    /// never keeps another item out of the reply.
    pub fn record_download(&mut self, ev: ItemEvent) -> (sg: Signal)
        requires
            old(self).wf(),
            old(self).failed is None,
            old(self).next < old(self).items@.len(),
            crate::cache::needs_download(old(self).cache, old(self).current_key()),
        ensures
            final(self).wf(),
            final(self).items@ == old(self).items@,
            final(self).failed is None,
            final(self).next == old(self).next + 1,
            outcome_models(final(self).outcomes@) == outcome_models(old(self).outcomes@).push(
                ReplyEntryModel {
                    key: old(self).current_key().text(),
                    outcome: recorded_outcome(ev, old(self).current_key()),
                },
            ),
            sg.key.text() == old(self).current_key().text(),
            sg.outcome@ == recorded_outcome(ev, old(self).current_key()),
            match ev {
                ItemEvent::Downloaded { digest, path } => if digest@
                    == old(self).current_key().digest@ {
                    &&& final(self).cache.has(old(self).current_key().text())
                    &&& final(self).cache.path_of(old(self).current_key().text()) == path@
                    &&& forall|k2: Seq<u8>|
                        k2 != old(self).current_key().text() ==> final(self).cache.has(k2) == old(
                            self,
                        ).cache.has(k2)
                } else {
                    final(self).cache == old(self).cache
                },
                _ => final(self).cache == old(self).cache,
            },
    {
        let ghost o = *self;
        let key = self.items[self.next].key.clone_key();
        let outcome: ItemOutcome = match ev {
            ItemEvent::SecretMissing => ItemOutcome::Failed { kind: ErrorKind::SecretNotFound },
            ItemEvent::DownloadFailed => ItemOutcome::Failed { kind: ErrorKind::Download },
            ItemEvent::Downloaded { digest, path } => {
                if crate::bytes::bytes_eq(&digest, &self.items[self.next].key.digest) {
                    let sg_path = crate::bytes::copy_bytes(&path);
                    self.cache.insert(key.clone_key(), path);
                    ItemOutcome::Fetched { path: sg_path }
                } else {
                    ItemOutcome::Failed { kind: ErrorKind::ChecksumMismatch }
                }
            },
        };
        let sg_outcome = copy_outcome(&outcome);
        let entry = ReplyEntry { key: key.clone_key(), outcome };
        self.outcomes.push(entry);
        let nlen = self.items.len();
        proof {
            assert(self.next < nlen);
        }
        self.next = self.next + 1;
        let sg = Signal { key, outcome: sg_outcome };
        proof {
            assert(outcome_models(self.outcomes@) =~= outcome_models(o.outcomes@).push(
                ReplyEntryModel {
                    key: o.current_key().text(),
                    outcome: recorded_outcome(ev, o.current_key()),
                },
            ));
        }
        sg
    }

    /// Records an infrastructure failure: the job is now failed with that
    /// kind, whatever the items had reached.
    pub fn record_job_failure(&mut self, kind: ErrorKind)
        requires
            old(self).wf(),
            !kind.is_item_scoped(),
        ensures
            final(self).wf(),
            final(self).failed == Some(kind),
            final(self).items@ == old(self).items@,
            final(self).outcomes@ == old(self).outcomes@,
            final(self).cache == old(self).cache,
            final(self).next == old(self).next,
    {
        self.failed = Some(kind);
    }

    /// The one terminal message.  A failed job yields the exception with the
    /// recorded kind — whatever outcomes the items had already reached — and
    /// no reply; a completed job yields the reply carrying exactly one
    /// outcome per requested key, in request order.
    pub fn finish(self) -> (t: Terminal)
        requires
            self.wf(),
            self.failed is Some || self.complete(),
        ensures
            match t {
                Terminal::Success(r) => {
                    &&& self.failed is None
                    &&& self.complete()
                    &&& outcome_models(r.outcomes@) == outcome_models(self.outcomes@)
                    &&& r.outcomes@.len() == self.items@.len()
                    &&& forall|i: int|
                        0 <= i < r.outcomes@.len() ==> (#[trigger] r.outcomes@[i])@.key
                            == self.items@[i]@.key
                },
                Terminal::Failure(e) => {
                    &&& self.failed == Some(e.kind)
                    &&& e.message@ == e.kind.tag_spec()
                },
            },
    {
        match self.failed {
            Some(kind) => Terminal::Failure(
                Exception { kind, message: kind.tag_vec() },
            ),
            None => Terminal::Success(Reply { outcomes: self.outcomes }),
        }
    }
}

impl crate::service::Source for FetchJob {
    open spec fn inv(&self) -> bool {
        self.wf()
    }

    open spec fn cached_spec(&self, key: ChecksumKey) -> bool {
        self.cache.has(key.text())
    }

    fn cached(&self, key: &ChecksumKey) -> (r: bool) {
        self.cache.lookup(key).is_some()
    }
}

/// The outcome an item event is recorded as, given the item's declared key.
pub open spec fn recorded_outcome(ev: ItemEvent, key: ChecksumKey) -> OutcomeModel {
    match ev {
        ItemEvent::SecretMissing => OutcomeModel::Failed { kind: ErrorKind::SecretNotFound },
        ItemEvent::DownloadFailed => OutcomeModel::Failed { kind: ErrorKind::Download },
        ItemEvent::Downloaded { digest, path } => if digest@ == key.digest@ {
            OutcomeModel::Fetched { path: path@ }
        } else {
            OutcomeModel::Failed { kind: ErrorKind::ChecksumMismatch }
        },
    }
}

/// Copies an outcome value.
fn copy_outcome(o: &ItemOutcome) -> (r: ItemOutcome)
    ensures
        r@ == o@,
{
    match o {
        ItemOutcome::Cached { path } => ItemOutcome::Cached {
            path: crate::bytes::copy_bytes(path),
        },
        ItemOutcome::Fetched { path } => ItemOutcome::Fetched {
            path: crate::bytes::copy_bytes(path),
        },
        ItemOutcome::Failed { kind } => ItemOutcome::Failed { kind: *kind },
    }
}

} // verus!
