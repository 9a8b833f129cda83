//! The content-addressed store: blobs kept under the hash of their bytes, with
//! reference counts, and eviction of what is old and no longer referenced.

use blake2::Digest;
use vstd::prelude::*;
use vstd::bytes::{spec_u128_from_le_bytes, u128_from_le_bytes};
use vstd::slice::slice_subrange;
use crate::search::{
    first_position, lemma_first_position, lemma_first_position_is, lemma_occurs, occurs,
};

verus! {

/// The BLAKE2b-256 digest of `data`: 32 bytes.
pub uninterp spec fn blake2b_256(data: Seq<u8>) -> Seq<u8>;

/// Hashes `data` with `blake2::Blake2b256::digest`. The result is the
/// BLAKE2b digest of the bytes, which is a function of the bytes alone, and
/// its length is the 32 bytes that the type fixes.
#[verifier::external_body]
fn blake2b_256_digest(data: &[u8]) -> (digest: Vec<u8>)
    ensures
        digest@ == blake2b_256(data@),
        digest@.len() == 32,
{
    blake2::Blake2b256::digest(data).to_vec()
}

/// The key of a blob: the hash of its bytes, as two integers.
#[derive(Debug, Clone, Copy, PartialEq, Eq, Hash, Structural)]
pub struct FileStoreKey {
    /// The first sixteen bytes of the hash, read as a little-endian integer.
    pub head: u128,
    /// The last sixteen bytes of the hash, read as a little-endian integer.
    pub tail: u128,
}

impl FileStoreKey {
    /// The key of the blob with this content.
    pub open spec fn of(content: Seq<u8>) -> FileStoreKey {
        let digest = blake2b_256(content);
        FileStoreKey {
            head: spec_u128_from_le_bytes(digest.subrange(0, 16)),
            tail: spec_u128_from_le_bytes(digest.subrange(16, 32)),
        }
    }

    /// Computes the key of the blob with this content.
    pub fn from_content(content: &[u8]) -> (key: FileStoreKey)
        ensures
            key == Self::of(content@),
    {
        let digest = blake2b_256_digest(content);
        let head = u128_from_le_bytes(slice_subrange(digest.as_slice(), 0, 16));
        let tail = u128_from_le_bytes(slice_subrange(digest.as_slice(), 16, 32));
        FileStoreKey { head, tail }
    }
}

/// A blob of the store.
struct Blob {
    key: FileStoreKey,
    content: Vec<u8>,
    references: u64,
}

/// Mathematical value of a blob: its key, its bytes, and how many users hold it.
pub struct BlobView {
    pub key: FileStoreKey,
    pub content: Seq<u8>,
    pub references: nat,
}

/// The store. Its value is the sequence of its blobs, from the one stored
/// longest ago to the one stored last.
pub struct FileStore {
    blobs: Vec<Blob>,
    max_size: u64,
    min_size: u64,
}

/// The keys of these blobs, in order.
pub open spec fn blob_keys(blobs: Seq<BlobView>) -> Seq<FileStoreKey> {
    blobs.map_values(|blob: BlobView| blob.key)
}

/// Whether a blob is kept under `key`.
pub open spec fn holds(blobs: Seq<BlobView>, key: FileStoreKey) -> bool {
    occurs(blob_keys(blobs), key)
}

/// The bytes kept under `key`.
pub open spec fn content_of(blobs: Seq<BlobView>, key: FileStoreKey) -> Option<Seq<u8>> {
    let p = first_position(blob_keys(blobs), key);
    if p < blobs.len() {
        Some(blobs[p].content)
    } else {
        None
    }
}

/// How many users hold the blob under `key`; zero where there is none.
pub open spec fn references_of(blobs: Seq<BlobView>, key: FileStoreKey) -> nat {
    let p = first_position(blob_keys(blobs), key);
    if p < blobs.len() {
        blobs[p].references
    } else {
        0
    }
}

/// The total number of bytes of these blobs.
pub open spec fn total_size(blobs: Seq<BlobView>) -> nat
    decreases blobs.len(),
{
    if blobs.len() == 0 {
        0
    } else {
        total_size(blobs.drop_last()) + blobs.last().content.len()
    }
}

/// The store after `content` is stored under `key`: the blob becomes the
/// newest; the references to a blob that was already there are kept.
pub open spec fn stored(blobs: Seq<BlobView>, key: FileStoreKey, content: Seq<u8>) -> Seq<
    BlobView,
> {
    let p = first_position(blob_keys(blobs), key);
    if p < blobs.len() {
        blobs.remove(p).push(BlobView { key, content, references: blobs[p].references })
    } else {
        blobs.push(BlobView { key, content, references: 0 })
    }
}

/// One reference more, up to the largest count that fits.
pub open spec fn one_more(references: nat) -> nat {
    if references < u64::MAX {
        references + 1
    } else {
        references
    }
}

/// One reference less, down to zero.
pub open spec fn one_less(references: nat) -> nat {
    if references > 0 {
        (references - 1) as nat
    } else {
        0
    }
}

/// The store after one more user holds the blob under `key`.
pub open spec fn retained(blobs: Seq<BlobView>, key: FileStoreKey) -> Seq<BlobView> {
    let p = first_position(blob_keys(blobs), key);
    if p < blobs.len() {
        blobs.update(p, BlobView { references: one_more(blobs[p].references), ..blobs[p] })
    } else {
        blobs
    }
}

/// The store after one user lets go of the blob under `key`.
pub open spec fn released(blobs: Seq<BlobView>, key: FileStoreKey) -> Seq<BlobView> {
    let p = first_position(blob_keys(blobs), key);
    if p < blobs.len() {
        blobs.update(p, BlobView { references: one_less(blobs[p].references), ..blobs[p] })
    } else {
        blobs
    }
}

/// What is left of `blobs` when the oldest blobs without references are
/// dropped, one by one, for as long as the store holds more than `floor`
/// bytes. `kept` is the size of what stands before `blobs` and stays.
pub open spec fn evict_from(blobs: Seq<BlobView>, kept: nat, floor: nat) -> Seq<BlobView>
    decreases blobs.len(),
{
    if blobs.len() == 0 || kept + total_size(blobs) <= floor {
        blobs
    } else if blobs[0].references == 0 {
        evict_from(blobs.drop_first(), kept, floor)
    } else {
        seq![blobs[0]] + evict_from(blobs.drop_first(), kept + blobs[0].content.len(), floor)
    }
}

/// The store after an eviction: untouched while it holds at most `max_size`
/// bytes; brought down towards `min_size` bytes otherwise.
pub open spec fn evicted(blobs: Seq<BlobView>, max_size: nat, min_size: nat) -> Seq<BlobView> {
    if total_size(blobs) <= max_size {
        blobs
    } else {
        evict_from(blobs, 0, min_size)
    }
}

/// The size of a sequence of blobs is that of its first blob plus that of the rest.
pub proof fn lemma_total_size_first(blobs: Seq<BlobView>)
    requires
        blobs.len() > 0,
    ensures
        total_size(blobs) == blobs[0].content.len() + total_size(blobs.drop_first()),
    decreases blobs.len(),
{
    if blobs.len() == 1 {
        assert(blobs.drop_last() =~= blobs.drop_first());
        assert(total_size(blobs.drop_first()) == 0);
    } else {
        lemma_total_size_first(blobs.drop_last());
        assert(blobs.drop_last().drop_first() =~= blobs.drop_first().drop_last());
        assert(blobs.drop_first().last() == blobs.last());
    }
}

/// The keys of the blobs that an eviction drops, oldest first; see [`evict_from`].
pub open spec fn dropped_from(blobs: Seq<BlobView>, kept: nat, floor: nat) -> Seq<FileStoreKey>
    decreases blobs.len(),
{
    if blobs.len() == 0 || kept + total_size(blobs) <= floor {
        seq![]
    } else if blobs[0].references == 0 {
        seq![blobs[0].key] + dropped_from(blobs.drop_first(), kept, floor)
    } else {
        dropped_from(blobs.drop_first(), kept + blobs[0].content.len(), floor)
    }
}

/// The keys of the blobs that an eviction drops, oldest first; see [`evicted`].
pub open spec fn dropped(blobs: Seq<BlobView>, max_size: nat, min_size: nat) -> Seq<FileStoreKey> {
    if total_size(blobs) <= max_size {
        seq![]
    } else {
        dropped_from(blobs, 0, min_size)
    }
}

/// Whether no key occurs twice and every blob stands under the hash of its bytes.
pub open spec fn well_formed(blobs: Seq<BlobView>) -> bool {
    &&& blob_keys(blobs).no_duplicates()
    &&& forall|i: int|
        0 <= i < blobs.len() ==> (#[trigger] blobs[i]).key == FileStoreKey::of(blobs[i].content)
}

impl View for Blob {
    type V = BlobView;

    closed spec fn view(&self) -> BlobView {
        BlobView { key: self.key, content: self.content@, references: self.references as nat }
    }
}

impl View for FileStore {
    type V = Seq<BlobView>;

    closed spec fn view(&self) -> Seq<BlobView> {
        self.blobs@.map_values(|blob: Blob| blob@)
    }
}

impl FileStore {
    /// Whether the store is well formed: see [`well_formed`].
    pub open spec fn wf(&self) -> bool {
        well_formed(self@)
    }

    /// The size above which an eviction drops blobs.
    pub closed spec fn max_size(&self) -> nat {
        self.max_size as nat
    }

    /// The size that an eviction aims for.
    pub closed spec fn min_size(&self) -> nat {
        self.min_size as nat
    }

    /// An empty store that evicts when it holds more than `max_size` bytes, down
    /// to `min_size` bytes.
    pub fn new(max_size: u64, min_size: u64) -> (store: FileStore)
        ensures
            store.wf(),
            store@ == Seq::<BlobView>::empty(),
            store.max_size() == max_size,
            store.min_size() == min_size,
    {
        let store = FileStore { blobs: Vec::new(), max_size, min_size };
        assert(store@ =~= Seq::<BlobView>::empty());
        store
    }

    /// Where the blob under `key` stands.
    fn find(&self, key: &FileStoreKey) -> (found: Option<usize>)
        ensures
            found is Some == holds(self@, *key),
            found matches Some(p) ==> p == first_position(blob_keys(self@), *key) && p
                < self.blobs@.len(),
    {
        let ghost keys = blob_keys(self@);
        let mut p: usize = 0;
        while p < self.blobs.len()
            invariant
                keys == blob_keys(self@),
                p <= self.blobs@.len(),
                forall|k: int| 0 <= k < p ==> keys[k] != *key,
            decreases self.blobs@.len() - p,
        {
            if self.blobs[p].key == *key {
                proof {
                    lemma_first_position_is(keys, *key, p as int);
                }
                return Some(p);
            }
            p += 1;
        }
        proof {
            lemma_first_position_is(keys, *key, p as int);
        }
        None
    }

    /// The keys of the blobs, from the one stored longest ago to the one
    /// stored last: what has to be written down, with the bytes under each
    /// key, for the store to outlive the process.
    pub fn keys(&self) -> (keys: Vec<FileStoreKey>)
        ensures
            keys@ == blob_keys(self@),
    {
        let mut keys: Vec<FileStoreKey> = Vec::new();
        let mut i: usize = 0;
        while i < self.blobs.len()
            invariant
                i <= self.blobs@.len(),
                keys@ == blob_keys(self@).take(i as int),
            decreases self.blobs@.len() - i,
        {
            keys.push(self.blobs[i].key);
            assert(keys@ =~= blob_keys(self@).take(i + 1));
            i += 1;
        }
        assert(blob_keys(self@).take(i as int) =~= blob_keys(self@));
        keys
    }

    /// Whether a blob is kept under `key`.
    pub fn has_key(&self, key: &FileStoreKey) -> (found: bool)
        ensures
            found == holds(self@, *key),
    {
        self.find(key).is_some()
    }

    /// The bytes kept under `key`.
    pub fn get(&self, key: &FileStoreKey) -> (content: Option<&Vec<u8>>)
        ensures
            match content {
                Some(bytes) => content_of(self@, *key) == Some(bytes@),
                None => content_of(self@, *key) is None,
            },
    {
        match self.find(key) {
            Some(p) => Some(&self.blobs[p].content),
            None => None,
        }
    }

    /// How many users hold the blob under `key`.
    pub fn references(&self, key: &FileStoreKey) -> (count: u64)
        ensures
            count == references_of(self@, *key),
    {
        match self.find(key) {
            Some(p) => self.blobs[p].references,
            None => 0,
        }
    }

    /// Stores `content` and returns its key. The blob becomes the newest of the
    /// store; nothing is evicted.
    pub fn put(&mut self, content: Vec<u8>) -> (key: FileStoreKey)
        requires
            old(self).wf(),
        ensures
            final(self).wf(),
            key == FileStoreKey::of(content@),
            final(self)@ == stored(old(self)@, key, content@),
            final(self).max_size() == old(self).max_size(),
            final(self).min_size() == old(self).min_size(),
    {
        let key = FileStoreKey::from_content(content.as_slice());
        let ghost before = self@;
        proof {
            lemma_first_position(blob_keys(before), key);
        }
        let references = match self.find(&key) {
            Some(p) => {
                let blob = self.blobs.remove(p);
                assert(self@ =~= before.remove(p as int));
                blob.references
            },
            None => 0,
        };
        let ghost middle = self@;
        self.blobs.push(Blob { key, content, references });
        proof {
            assert(self@ =~= middle.push(BlobView { key, content: content@, references: references as nat }));
            assert(self@ =~= stored(before, key, content@));
            let keys = blob_keys(self@);
            let last = keys.len() - 1;
            assert forall|i: int, j: int| 0 <= i < keys.len() && 0 <= j < keys.len() && i != j implies keys[i] != keys[j] by {
                let p = first_position(blob_keys(before), key);
                if p < before.len() {
                    let a = if i < p { i } else { i + 1 };
                    let b = if j < p { j } else { j + 1 };
                    if i < last {
                        assert(keys[i] == blob_keys(before)[a]);
                    }
                    if j < last {
                        assert(keys[j] == blob_keys(before)[b]);
                    }
                    assert(blob_keys(before)[p] == key);
                } else {
                    if i < last {
                        assert(keys[i] == blob_keys(before)[i]);
                    }
                    if j < last {
                        assert(keys[j] == blob_keys(before)[j]);
                    }
                }
            }
            assert forall|i: int| 0 <= i < self@.len() implies (#[trigger] self@[i]).key
                == FileStoreKey::of(self@[i].content) by {
                let p = first_position(blob_keys(before), key);
                if i < last {
                    if p < before.len() {
                        let a = if i < p { i } else { i + 1 };
                        assert(self@[i] == before[a]);
                    } else {
                        assert(self@[i] == before[i]);
                    }
                }
            }
        }
        key
    }

    /// Counts one more user of the blob under `key`; tells whether there is such a blob.
    pub fn retain(&mut self, key: &FileStoreKey) -> (found: bool)
        requires
            old(self).wf(),
        ensures
            final(self).wf(),
            found == holds(old(self)@, *key),
            final(self)@ == retained(old(self)@, *key),
            final(self).max_size() == old(self).max_size(),
            final(self).min_size() == old(self).min_size(),
    {
        match self.find(key) {
            Some(p) => {
                if self.blobs[p].references < u64::MAX {
                    self.blobs[p].references = self.blobs[p].references + 1;
                }
                proof {
                    assert(self@ =~= retained(old(self)@, *key));
                    assert(blob_keys(self@) =~= blob_keys(old(self)@));
                    assert forall|i: int| 0 <= i < self@.len() implies (#[trigger] self@[i]).key
                        == FileStoreKey::of(self@[i].content) by {
                        assert(old(self)@[i].key == FileStoreKey::of(old(self)@[i].content));
                    }
                }
                true
            },
            None => false,
        }
    }

    /// Counts one user less of the blob under `key`.
    pub fn release(&mut self, key: &FileStoreKey)
        requires
            old(self).wf(),
        ensures
            final(self).wf(),
            final(self)@ == released(old(self)@, *key),
            final(self).max_size() == old(self).max_size(),
            final(self).min_size() == old(self).min_size(),
    {
        match self.find(key) {
            Some(p) => {
                if self.blobs[p].references > 0 {
                    self.blobs[p].references = self.blobs[p].references - 1;
                }
                proof {
                    assert(self@ =~= released(old(self)@, *key));
                    assert(blob_keys(self@) =~= blob_keys(old(self)@));
                    assert forall|i: int| 0 <= i < self@.len() implies (#[trigger] self@[i]).key
                        == FileStoreKey::of(self@[i].content) by {
                        assert(old(self)@[i].key == FileStoreKey::of(old(self)@[i].content));
                    }
                }
            },
            None => {},
        }
    }

    /// The number of bytes that the store holds.
    pub fn size(&self) -> (total: u128)
        ensures
            total == total_size(self@),
    {
        let mut total: u128 = 0;
        let mut i: usize = 0;
        while i < self.blobs.len()
            invariant
                i <= self.blobs@.len(),
                total == total_size(self@.take(i as int)),
                total <= i * 0xffff_ffff_ffff_ffff,
            decreases self.blobs@.len() - i,
        {
            assert(self@.take(i + 1).drop_last() == self@.take(i as int));
            assert((i + 1) * 0xffff_ffff_ffff_ffff == i * 0xffff_ffff_ffff_ffff
                + 0xffff_ffff_ffff_ffff) by (nonlinear_arith);
            assert(i * 0xffff_ffff_ffff_ffff <= 0xffff_ffff_ffff_ffff * 0xffff_ffff_ffff_ffff)
                by (nonlinear_arith)
                requires
                    i <= 0xffff_ffff_ffff_ffff,
            ;
            total = total + self.blobs[i].content.len() as u128;
            i += 1;
        }
        assert(self@.take(i as int) == self@);
        total
    }

    /// Evicts: where the store holds more than its maximum size, the oldest
    /// blobs without references are dropped, one by one, until it holds no more
    /// than its minimum size or no such blob is left. Returns the keys that
    /// were dropped, oldest first.
    pub fn evict(&mut self) -> (removed: Vec<FileStoreKey>)
        requires
            old(self).wf(),
        ensures
            final(self).wf(),
            final(self)@ == evicted(old(self)@, old(self).max_size(), old(self).min_size()),
            removed@ == dropped(old(self)@, old(self).max_size(), old(self).min_size()),
            final(self).max_size() == old(self).max_size(),
            final(self).min_size() == old(self).min_size(),
    {
        let mut removed: Vec<FileStoreKey> = Vec::new();
        let mut total = self.size();
        if total <= self.max_size as u128 {
            return removed;
        }
        let floor = self.min_size as u128;
        let ghost all = self@;
        let ghost mut kept: nat = 0;
        let mut i: usize = 0;
        assert(self@.skip(0) =~= self@);
        assert(self@.take(0) + evict_from(self@.skip(0), 0, floor as nat) =~= evict_from(
            all,
            0,
            floor as nat,
        ));
        while i < self.blobs.len() && total > floor
            invariant
                self.wf(),
                self.max_size == old(self).max_size,
                self.min_size == old(self).min_size,
                floor == self.min_size,
                i <= self@.len(),
                self@.len() == self.blobs@.len(),
                total == kept + total_size(self@.skip(i as int)),
                evict_from(all, 0, floor as nat) == self@.take(i as int) + evict_from(
                    self@.skip(i as int),
                    kept,
                    floor as nat,
                ),
                dropped_from(all, 0, floor as nat) == removed@ + dropped_from(
                    self@.skip(i as int),
                    kept,
                    floor as nat,
                ),
            decreases self.blobs@.len() - i,
        {
            let ghost before = self@;
            let ghost rest = before.skip(i as int);
            proof {
                lemma_total_size_first(rest);
                assert(rest[0] == before[i as int]);
            }
            if self.blobs[i].references == 0 {
                let blob = self.blobs.remove(i);
                removed.push(blob.key);
                total = total - blob.content.len() as u128;
                proof {
                    assert(self@ =~= before.remove(i as int));
                    assert(self@.skip(i as int) =~= rest.drop_first());
                    assert(self@.take(i as int) =~= before.take(i as int));
                    lemma_remove_well_formed(before, i as int);
                }
            } else {
                proof {
                    kept = kept + before[i as int].content.len();
                    assert(before.skip(i + 1) =~= rest.drop_first());
                    assert(before.take(i + 1) =~= before.take(i as int) + seq![before[i as int]]);
                    assert(before.take(i as int) + (seq![before[i as int]] + evict_from(
                        rest.drop_first(),
                        kept,
                        floor as nat,
                    )) =~= before.take(i + 1) + evict_from(rest.drop_first(), kept, floor as nat));
                }
                i += 1;
            }
        }
        proof {
            let rest = self@.skip(i as int);
            assert(evict_from(rest, kept, floor as nat) == rest);
            assert(dropped_from(rest, kept, floor as nat) =~= Seq::<FileStoreKey>::empty());
            assert(self@.take(i as int) + rest =~= self@);
        }
        removed
    }
}

/// A store that loses a blob stays well formed.
pub proof fn lemma_remove_well_formed(blobs: Seq<BlobView>, p: int)
    requires
        well_formed(blobs),
        0 <= p < blobs.len(),
    ensures
        well_formed(blobs.remove(p)),
{
    let after = blobs.remove(p);
    assert forall|i: int, j: int|
        0 <= i < after.len() && 0 <= j < after.len() && i != j implies blob_keys(after)[i]
        != blob_keys(after)[j] by {
        let a = if i < p { i } else { i + 1 };
        let b = if j < p { j } else { j + 1 };
        assert(blob_keys(after)[i] == blob_keys(blobs)[a]);
        assert(blob_keys(after)[j] == blob_keys(blobs)[b]);
    }
    assert forall|i: int| 0 <= i < after.len() implies (#[trigger] after[i]).key
        == FileStoreKey::of(after[i].content) by {
        let a = if i < p { i } else { i + 1 };
        assert(after[i] == blobs[a]);
    }
}

/// What was stored is what comes back: after `content` is stored, the store
/// gives exactly `content` under its key, whatever the bytes, none included.
pub proof fn law_put_then_get(blobs: Seq<BlobView>, content: Seq<u8>)
    requires
        well_formed(blobs),
    ensures
        content_of(stored(blobs, FileStoreKey::of(content), content), FileStoreKey::of(content))
            == Some(content),
{
    let key = FileStoreKey::of(content);
    let keys = blob_keys(blobs);
    let after = stored(blobs, key, content);
    lemma_first_position(keys, key);
    let p = first_position(keys, key);
    let last = after.len() - 1;
    assert forall|j: int| 0 <= j < last implies blob_keys(after)[j] != key by {
        if p < blobs.len() {
            let a = if j < p { j } else { j + 1 };
            assert(blob_keys(after)[j] == keys[a]);
            assert(keys[p] == key);
        } else {
            assert(blob_keys(after)[j] == keys[j]);
        }
    }
    assert(blob_keys(after)[last] == key);
    lemma_first_position_is(blob_keys(after), key, last);
}

/// Storing a blob leaves every other blob as it was: its bytes and its references.
pub proof fn law_put_keeps_others(
    blobs: Seq<BlobView>,
    key: FileStoreKey,
    content: Seq<u8>,
    other: FileStoreKey,
)
    requires
        well_formed(blobs),
        other != key,
    ensures
        content_of(stored(blobs, key, content), other) == content_of(blobs, other),
        references_of(stored(blobs, key, content), other) == references_of(blobs, other),
{
    let keys = blob_keys(blobs);
    let after = stored(blobs, key, content);
    lemma_first_position(keys, key);
    lemma_first_position(keys, other);
    let p = first_position(keys, key);
    let q = first_position(keys, other);
    let last = after.len() - 1;
    if q < blobs.len() {
        let target = if p < blobs.len() && p < q { q - 1 } else { q };
        assert forall|j: int| 0 <= j < target implies blob_keys(after)[j] != other by {
            if p < blobs.len() {
                let a = if j < p { j } else { j + 1 };
                assert(blob_keys(after)[j] == keys[a]);
            } else {
                assert(blob_keys(after)[j] == keys[j]);
            }
        }
        assert(after[target] == blobs[q]);
        assert(blob_keys(after)[target] == other);
        lemma_first_position_is(blob_keys(after), other, target);
    } else {
        assert forall|j: int| 0 <= j < after.len() implies blob_keys(after)[j] != other by {
            if j < last {
                if p < blobs.len() {
                    let a = if j < p { j } else { j + 1 };
                    assert(blob_keys(after)[j] == keys[a]);
                } else {
                    assert(blob_keys(after)[j] == keys[j]);
                }
            }
        }
        lemma_first_position_is(blob_keys(after), other, after.len() as int);
    }
}

/// Every blob that an eviction leaves was there before, and every blob with a
/// reference is left, in the same order.
pub proof fn lemma_evict_from(blobs: Seq<BlobView>, kept: nat, floor: nat)
    ensures
        forall|blob: BlobView| #[trigger]
            evict_from(blobs, kept, floor).contains(blob) ==> blobs.contains(blob),
        forall|blob: BlobView|
            blobs.contains(blob) && blob.references > 0 ==> #[trigger] evict_from(
                blobs,
                kept,
                floor,
            ).contains(blob),
        kept + total_size(evict_from(blobs, kept, floor)) <= floor || forall|blob: BlobView| #[trigger]
            evict_from(blobs, kept, floor).contains(blob) ==> blob.references > 0,
    decreases blobs.len(),
{
    let after = evict_from(blobs, kept, floor);
    if blobs.len() == 0 {
        assert(after =~= Seq::<BlobView>::empty());
        assert forall|blob: BlobView| #[trigger] after.contains(blob) implies blob.references > 0 by {
            let i = choose|i: int| 0 <= i < after.len() && after[i] == blob;
        }
    } else if kept + total_size(blobs) <= floor {
        assert(after == blobs);
    } else {
        let rest = blobs.drop_first();
        lemma_total_size_first(blobs);
        if blobs[0].references == 0 {
            lemma_evict_from(rest, kept, floor);
            assert forall|blob: BlobView| #[trigger] after.contains(blob) implies blobs.contains(
                blob,
            ) by {
                assert(rest.contains(blob));
                let i = choose|i: int| 0 <= i < rest.len() && rest[i] == blob;
                assert(blobs[i + 1] == blob);
            }
            assert forall|blob: BlobView| blobs.contains(blob) && blob.references > 0 implies #[trigger] after.contains(
                blob,
            ) by {
                let i = choose|i: int| 0 <= i < blobs.len() && blobs[i] == blob;
                assert(rest[i - 1] == blob);
                assert(rest.contains(blob));
            }
        } else {
            let more = kept + blobs[0].content.len();
            let tail = evict_from(rest, more, floor);
            lemma_evict_from(rest, more, floor);
            assert(after == seq![blobs[0]] + tail);
            lemma_total_size_first(after);
            assert(after.drop_first() =~= tail);
            assert forall|blob: BlobView| #[trigger] after.contains(blob) implies blobs.contains(
                blob,
            ) by {
                let i = choose|i: int| 0 <= i < after.len() && after[i] == blob;
                if i > 0 {
                    assert(tail[i - 1] == blob);
                    assert(tail.contains(blob));
                    assert(rest.contains(blob));
                    let j = choose|j: int| 0 <= j < rest.len() && rest[j] == blob;
                    assert(blobs[j + 1] == blob);
                } else {
                    assert(blobs[0] == blob);
                }
            }
            assert forall|blob: BlobView| blobs.contains(blob) && blob.references > 0 implies #[trigger] after.contains(
                blob,
            ) by {
                let i = choose|i: int| 0 <= i < blobs.len() && blobs[i] == blob;
                if i > 0 {
                    assert(rest[i - 1] == blob);
                    assert(rest.contains(blob));
                    assert(tail.contains(blob));
                    let j = choose|j: int| 0 <= j < tail.len() && tail[j] == blob;
                    assert(after[j + 1] == blob);
                } else {
                    assert(after[0] == blob);
                }
            }
            assert(total_size(after) == blobs[0].content.len() + total_size(tail));
            if more + total_size(tail) <= floor {
                assert(kept + total_size(after) <= floor);
            } else {
                assert forall|blob: BlobView| #[trigger] after.contains(blob) implies blob.references
                    > 0 by {
                    let i = choose|i: int| 0 <= i < after.len() && after[i] == blob;
                    if i > 0 {
                        assert(tail[i - 1] == blob);
                        assert(tail.contains(blob));
                    }
                }
            }
        }
    }
}

/// An eviction drops nothing that is referenced and adds nothing: every blob
/// it leaves was there, and every blob with a reference is left. An eviction
/// does nothing at or below the maximum size. Above it, the store is brought
/// down to its minimum size unless only referenced blobs are left.
pub proof fn law_eviction(blobs: Seq<BlobView>, max_size: nat, min_size: nat)
    ensures
        forall|blob: BlobView| #[trigger]
            evicted(blobs, max_size, min_size).contains(blob) ==> blobs.contains(blob),
        forall|blob: BlobView|
            blobs.contains(blob) && blob.references > 0 ==> #[trigger] evicted(
                blobs,
                max_size,
                min_size,
            ).contains(blob),
        total_size(blobs) <= max_size ==> evicted(blobs, max_size, min_size) == blobs,
        total_size(blobs) > max_size ==> total_size(evicted(blobs, max_size, min_size)) <= min_size
            || forall|blob: BlobView| #[trigger]
            evicted(blobs, max_size, min_size).contains(blob) ==> blob.references > 0,
{
    lemma_evict_from(blobs, 0, min_size);
}

/// Storing a blob makes the store hold it, and the store holds what it held.
pub proof fn lemma_stored_holds(
    blobs: Seq<BlobView>,
    key: FileStoreKey,
    content: Seq<u8>,
    other: FileStoreKey,
)
    ensures
        holds(stored(blobs, key, content), key),
        holds(blobs, other) ==> holds(stored(blobs, key, content), other),
{
    let keys = blob_keys(blobs);
    let after = stored(blobs, key, content);
    lemma_first_position(keys, key);
    lemma_occurs(blob_keys(after), key);
    lemma_occurs(blob_keys(after), other);
    lemma_occurs(keys, other);
    let p = first_position(keys, key);
    let last = after.len() - 1;
    assert(blob_keys(after)[last] == key);
    if holds(blobs, other) && other != key {
        let q = choose|q: int| 0 <= q < keys.len() && keys[q] == other;
        if p < blobs.len() {
            let target = if q < p { q } else { q - 1 };
            assert(blob_keys(after)[target] == keys[q]);
        } else {
            assert(blob_keys(after)[q] == keys[q]);
        }
    }
}

/// What is left of a well formed store after an eviction is well formed.
pub proof fn lemma_evict_from_well_formed(blobs: Seq<BlobView>, kept: nat, floor: nat)
    requires
        well_formed(blobs),
    ensures
        well_formed(evict_from(blobs, kept, floor)),
        forall|key: FileStoreKey|
            holds(evict_from(blobs, kept, floor), key) ==> holds(blobs, key),
    decreases blobs.len(),
{
    let after = evict_from(blobs, kept, floor);
    if blobs.len() == 0 || kept + total_size(blobs) <= floor {
    } else {
        let rest = blobs.drop_first();
        assert(rest =~= blobs.remove(0));
        lemma_remove_well_formed(blobs, 0);
        let more = if blobs[0].references == 0 {
            kept
        } else {
            kept + blobs[0].content.len()
        };
        lemma_evict_from_well_formed(rest, more, floor);
        let tail = evict_from(rest, more, floor);
        assert forall|key: FileStoreKey| holds(tail, key) implies holds(blobs, key) by {
            assert(holds(rest, key));
            lemma_occurs(blob_keys(rest), key);
            lemma_occurs(blob_keys(blobs), key);
            let i = choose|i: int| 0 <= i < rest.len() && blob_keys(rest)[i] == key;
            assert(blob_keys(blobs)[i + 1] == key);
        }
        if blobs[0].references != 0 {
            assert(after == seq![blobs[0]] + tail);
            assert forall|key: FileStoreKey| holds(after, key) implies holds(blobs, key) by {
                lemma_occurs(blob_keys(after), key);
                lemma_occurs(blob_keys(tail), key);
                lemma_occurs(blob_keys(blobs), key);
                let i = choose|i: int| 0 <= i < after.len() && blob_keys(after)[i] == key;
                if i > 0 {
                    assert(blob_keys(tail)[i - 1] == key);
                } else {
                    assert(blob_keys(blobs)[0] == key);
                }
            }
            assert forall|i: int, j: int|
                0 <= i < after.len() && 0 <= j < after.len() && i != j implies blob_keys(after)[i]
                != blob_keys(after)[j] by {
                if i > 0 && j > 0 {
                    assert(blob_keys(after)[i] == blob_keys(tail)[i - 1]);
                    assert(blob_keys(after)[j] == blob_keys(tail)[j - 1]);
                } else {
                    let k = if i > 0 { i } else { j };
                    assert(blob_keys(after)[k] == blob_keys(tail)[k - 1]);
                    lemma_occurs(blob_keys(tail), blob_keys(tail)[k - 1]);
                    lemma_occurs(blob_keys(rest), blob_keys(tail)[k - 1]);
                    if blob_keys(tail)[k - 1] == blobs[0].key {
                        assert(holds(tail, blobs[0].key));
                        assert(holds(rest, blobs[0].key));
                        let m = choose|m: int| 0 <= m < rest.len() && blob_keys(rest)[m] == blobs[0].key;
                        assert(blob_keys(blobs)[m + 1] == blob_keys(blobs)[0]);
                    }
                }
            }
            assert forall|i: int| 0 <= i < after.len() implies (#[trigger] after[i]).key
                == FileStoreKey::of(after[i].content) by {
                if i > 0 {
                    assert(after[i] == tail[i - 1]);
                }
            }
        }
    }
}

/// A well formed store is well formed after an eviction.
pub proof fn lemma_evicted_well_formed(blobs: Seq<BlobView>, max_size: nat, min_size: nat)
    requires
        well_formed(blobs),
    ensures
        well_formed(evicted(blobs, max_size, min_size)),
{
    lemma_evict_from_well_formed(blobs, 0, min_size);
}

} // verus!
