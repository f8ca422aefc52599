//! The in-process index of the content cache: which checksum keys are
//! published, each with the path of its verified content.  Entries are only
//! ever added, never changed — the store is content-addressed.

use vstd::prelude::*;

use crate::bytes::copy_bytes;
use crate::checksum::{lemma_key_text_injective, ChecksumKey};

verus! {

/// One published entry: a checksum key and the path of its content.
#[derive(Debug)]
pub struct CacheEntry {
    pub key: ChecksumKey,
    pub path: Vec<u8>,
}

/// The cache index.
#[derive(Debug)]
pub struct CacheIndex {
    pub entries: Vec<CacheEntry>,
}

impl CacheIndex {
    /// Well-formedness: every key is well formed and no key is listed twice.
    pub open spec fn wf(self) -> bool {
        &&& forall|i: int| 0 <= i < self.entries@.len() ==> (#[trigger] self.entries@[i]).key.wf()
        &&& forall|i: int, j: int|
            0 <= i < j < self.entries@.len() ==> self.entries@[i].key.text()
                != self.entries@[j].key.text()
    }

    /// Whether the key text `k` is published.
    pub open spec fn has(self, k: Seq<u8>) -> bool {
        exists|i: int| 0 <= i < self.entries@.len() && (#[trigger] self.entries@[i]).key.text()
            == k
    }

    /// The path published under the key text `k`.
    pub open spec fn path_of(self, k: Seq<u8>) -> Seq<u8> {
        let i = choose|i: int|
            0 <= i < self.entries@.len() && (#[trigger] self.entries@[i]).key.text() == k;
        self.entries@[i].path@
    }

    /// An empty index.
    pub fn new() -> (c: CacheIndex)
        ensures
            c.wf(),
            forall|k: Seq<u8>| !c.has(k),
            c.entries@.len() == 0,
    {
        CacheIndex { entries: Vec::new() }
    }

    /// In a well-formed index the entry at `i` is the one its key text finds.
    pub proof fn lemma_path_at(self, i: int)
        requires
            self.wf(),
            0 <= i < self.entries@.len(),
        ensures
            self.has(self.entries@[i].key.text()),
            self.path_of(self.entries@[i].key.text()) == self.entries@[i].path@,
    {
        let k = self.entries@[i].key.text();
        assert(self.has(k));
        let j = choose|j: int|
            0 <= j < self.entries@.len() && (#[trigger] self.entries@[j]).key.text() == k;
        if i != j {
            assert(self.entries@[i].key.text() != self.entries@[j].key.text());
        }
    }

    /// Looks a key up: the path of its verified content on a hit, nothing on
    /// a miss, exactly as the index stands.
    pub fn lookup(&self, key: &ChecksumKey) -> (r: Option<Vec<u8>>)
        requires
            self.wf(),
            key.wf(),
        ensures
            match r {
                Some(p) => self.has(key.text()) && p@ == self.path_of(key.text()),
                None => !self.has(key.text()),
            },
    {
        let mut i: usize = 0;
        while i < self.entries.len()
            invariant
                self.wf(),
                key.wf(),
                i <= self.entries@.len(),
                forall|j: int|
                    0 <= j < i ==> (#[trigger] self.entries@[j]).key.text() != key.text(),
            decreases self.entries@.len() - i,
        {
            if self.entries[i].key.same(key) {
                proof {
                    self.lemma_path_at(i as int);
                }
                return Some(copy_bytes(&self.entries[i].path));
            }
            proof {
                if self.entries@[i as int].key.text() == key.text() {
                    lemma_key_text_injective(self.entries@[i as int].key, *key);
                }
            }
            i = i + 1;
        }
        None
    }

    /// Publishes a new key.  The key must not be present yet: a published
    /// entry is never overwritten.
    pub fn insert(&mut self, key: ChecksumKey, path: Vec<u8>)
        requires
            old(self).wf(),
            key.wf(),
            !old(self).has(key.text()),
        ensures
            final(self).wf(),
            final(self).has(key.text()),
            final(self).path_of(key.text()) == path@,
            forall|k2: Seq<u8>|
                k2 != key.text() ==> final(self).has(k2) == old(self).has(k2),
            forall|k2: Seq<u8>|
                k2 != key.text() && old(self).has(k2) ==> final(self).path_of(k2) == old(
                    self,
                ).path_of(k2),
    {
        let ghost oldc = *self;
        let ghost kt = key.text();
        let ghost p = path@;
        self.entries.push(CacheEntry { key, path });
        proof {
            let n = self.entries@.len() as int;
            assert(self.entries@[n - 1].key.text() == kt);
            assert(forall|i: int| 0 <= i < n - 1 ==> self.entries@[i] == oldc.entries@[i]);
            assert(final(self).wf());
            self.lemma_path_at(n - 1);
            assert forall|k2: Seq<u8>| k2 != kt implies self.has(k2) == oldc.has(k2) by {
                if self.has(k2) {
                    let i = choose|i: int|
                        0 <= i < self.entries@.len() && (#[trigger] self.entries@[i]).key.text()
                            == k2;
                    assert(i < n - 1);
                    assert(oldc.entries@[i].key.text() == k2);
                }
                if oldc.has(k2) {
                    let i = choose|i: int|
                        0 <= i < oldc.entries@.len() && (#[trigger] oldc.entries@[i]).key.text()
                            == k2;
                    assert(self.entries@[i].key.text() == k2);
                }
            }
            assert forall|k2: Seq<u8>| k2 != kt && oldc.has(k2) implies self.path_of(k2)
                == oldc.path_of(k2) by {
                let i = choose|i: int|
                    0 <= i < oldc.entries@.len() && (#[trigger] oldc.entries@[i]).key.text()
                        == k2;
                oldc.lemma_path_at(i);
                assert(self.entries@[i].key.text() == k2);
                self.lemma_path_at(i);
            }
        }
    }
}

/// Whether fetching `key` against the index `c` requires a download: exactly
/// on a cache miss.
pub open spec fn needs_download(c: CacheIndex, key: ChecksumKey) -> bool {
    !c.has(key.text())
}

/// Fetching one checksum key twice in sequence downloads at most once: when
/// the first fetch misses and its verified content is then published under
/// the key, the second fetch of the same key is a cache hit and plans no
/// download at all.
pub proof fn lemma_second_fetch_is_hit(
    before: CacheIndex,
    after: CacheIndex,
    key: ChecksumKey,
    path: Seq<u8>,
)
    requires
        needs_download(before, key),
        after.has(key.text()),
        after.path_of(key.text()) == path,
        forall|k2: Seq<u8>| k2 != key.text() ==> after.has(k2) == before.has(k2),
    ensures
        !needs_download(after, key),
        after.path_of(key.text()) == path,
{
}

} // verus!
