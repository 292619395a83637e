//! The classifier: turns per-map performance outcomes into buckets of
//! beatmap hashes, keyed by the snapped aim-ratio percentage.
//!
//! Per-map failures are recoverable: a map whose file cannot be located or
//! parsed, whose performance attributes are not of the standard kind, or
//! whose performance split is degenerate is skipped on its own, and the
//! classifier still returns every bucket that could be built.

use vstd::prelude::*;

verus! {

use crate::bucket::bucket_key;
use crate::bucket::bucket_key_spec;

/// Why one record was skipped. None of these aborts the batch.
#[derive(Clone, Copy, PartialEq, Eq, Structural, Debug)]
pub enum SkipReason {
    /// The record lacks a folder name or a file name, so its map file cannot
    /// be located.
    PathMissing,
    /// The map file could not be parsed.
    ParseFailed,
    /// The computed performance attributes are not of the standard kind.
    NonStandard,
    /// Both performance components are zero: the map has no aim ratio.
    ZeroPerformance,
}

/// What the performance source produced for one map file.
#[derive(Clone, Copy, PartialEq, Eq, Structural, Debug)]
pub enum PerfOutcome {
    /// The file could not be parsed into a beatmap.
    ParseFailed,
    /// The attributes came back in a non-standard kind.
    NonStandard,
    /// A standard-kind performance split: the aim and speed components in
    /// millionths of a performance point.
    Split { aim_micro: u64, speed_micro: u64 },
}

/// One map as the classifier sees it: its identifying hash (which the
/// listing may lack) and its performance outcome.
pub struct MapEntry {
    pub hash: Option<String>,
    pub perf: PerfOutcome,
}

/// The bucket key an outcome is classified under, or `None` where the map is
/// skipped.
pub open spec fn key_of_outcome(perf: PerfOutcome, precision_milli: int) -> Option<int> {
    match perf {
        PerfOutcome::Split { aim_micro, speed_micro } => {
            if aim_micro + speed_micro > 0 {
                Some(bucket_key_spec(aim_micro as int, speed_micro as int, precision_milli))
            } else {
                None
            }
        },
        _ => None,
    }
}

/// Classifies one performance outcome: the bucket key of a non-degenerate
/// standard split, or the exact reason the map is skipped.
pub fn classify_one(perf: &PerfOutcome, precision_milli: u32) -> (r: Result<u32, SkipReason>)
    requires
        precision_milli > 0,
    ensures
        match *perf {
            PerfOutcome::ParseFailed => r == Err::<u32, SkipReason>(SkipReason::ParseFailed),
            PerfOutcome::NonStandard => r == Err::<u32, SkipReason>(SkipReason::NonStandard),
            PerfOutcome::Split { aim_micro, speed_micro } => {
                if aim_micro + speed_micro > 0 {
                    r matches Ok(k) && Some(k as int) == key_of_outcome(*perf, precision_milli as int)
                        && k <= 100
                } else {
                    r == Err::<u32, SkipReason>(SkipReason::ZeroPerformance)
                }
            },
        },
{
    match perf {
        PerfOutcome::ParseFailed => Err(SkipReason::ParseFailed),
        PerfOutcome::NonStandard => Err(SkipReason::NonStandard),
        PerfOutcome::Split { aim_micro, speed_micro } => {
            if *aim_micro == 0 && *speed_micro == 0 {
                Err(SkipReason::ZeroPerformance)
            } else {
                Ok(bucket_key(*aim_micro, *speed_micro, precision_milli))
            }
        },
    }
}

/// One bucket: the snapped aim percentage and the hashes of the maps that
/// landed on it, in the order they were classified.
pub struct Bucket {
    pub key: u32,
    pub hashes: Vec<Option<String>>,
}

/// Buckets are kept sorted by strictly ascending key, so keys are unique and
/// the collections are later appended in a deterministic order. Keys never
/// leave `[0, 100]`, and a bucket exists only once a hash landed on it.
pub open spec fn buckets_wf(s: Seq<Bucket>) -> bool {
    &&& forall|i: int, j: int| 0 <= i < j < s.len() ==> s[i].key < s[j].key
    &&& forall|i: int| 0 <= i < s.len() ==> (#[trigger] s[i].key) <= 100 && s[i].hashes@.len() > 0
}

/// The accumulated classification: a mapping from bucket key to the hashes
/// assigned to it, represented as a key-sorted vector of buckets.
pub struct BucketMap {
    pub entries: Vec<Bucket>,
}

impl BucketMap {
    pub open spec fn wf(self) -> bool {
        buckets_wf(self.entries@)
    }

    pub open spec fn has_bucket(self, k: int) -> bool {
        exists|i: int| 0 <= i < self.entries@.len() && self.entries@[i].key == k
    }

    pub open spec fn bucket_index(self, k: int) -> int {
        choose|i: int| 0 <= i < self.entries@.len() && self.entries@[i].key == k
    }

    /// The hashes assigned to bucket `k` (meaningful when the bucket exists).
    pub open spec fn bucket_at(self, k: int) -> Seq<Option<String>> {
        self.entries@[self.bucket_index(k)].hashes@
    }

    /// The abstract value of the accumulator: key to hash sequence.
    pub open spec fn as_map(self) -> Map<int, Seq<Option<String>>> {
        Map::new(|k: int| self.has_bucket(k), |k: int| self.bucket_at(k))
    }

    /// The hashes of bucket `k`, or the empty sequence where no such bucket
    /// exists yet.
    pub open spec fn bucket_or_empty(self, k: int) -> Seq<Option<String>> {
        if self.has_bucket(k) {
            self.bucket_at(k)
        } else {
            Seq::empty()
        }
    }

    /// In a well-formed bucket map the key at position `i` is found at
    /// position `i`: keys are unique.
    pub proof fn lemma_index_of_key(self, i: int)
        requires
            self.wf(),
            0 <= i < self.entries@.len(),
        ensures
            self.has_bucket(self.entries@[i].key as int),
            self.bucket_index(self.entries@[i].key as int) == i,
    {
        let k = self.entries@[i].key as int;
        assert(self.has_bucket(k));
        let j = self.bucket_index(k);
        assert(0 <= j < self.entries@.len() && self.entries@[j].key == k);
        if j < i {
            assert(self.entries@[j].key < self.entries@[i].key);
        } else if i < j {
            assert(self.entries@[i].key < self.entries@[j].key);
        }
    }

    /// An empty accumulator.
    pub fn new() -> (b: BucketMap)
        ensures
            b.wf(),
            b.as_map() == Map::<int, Seq<Option<String>>>::empty(),
            b.entries@.len() == 0,
    {
        let b = BucketMap { entries: Vec::new() };
        proof {
            assert(b.as_map() =~= Map::<int, Seq<Option<String>>>::empty());
        }
        b
    }

    fn find_pos(&self, key: u32) -> (i: usize)
        requires
            self.wf(),
        ensures
            0 <= i <= self.entries@.len(),
            forall|j: int| 0 <= j < i ==> (#[trigger] self.entries@[j].key) < key,
            i < self.entries@.len() ==> self.entries@[i as int].key >= key,
    {
        let n = self.entries.len();
        let mut i: usize = 0;
        while i < n
            invariant
                n == self.entries@.len(),
                0 <= i <= n,
                forall|j: int| 0 <= j < i ==> (#[trigger] self.entries@[j].key) < key,
            decreases n - i,
        {
            if self.entries[i].key >= key {
                return i;
            }
            i += 1;
        }
        i
    }

    /// Appends `hash` to bucket `key`, creating the bucket if it does not
    /// exist yet. Every other bucket is left untouched.
    pub fn insert(&mut self, key: u32, hash: Option<String>)
        requires
            old(self).wf(),
            key <= 100,
        ensures
            final(self).wf(),
            final(self).as_map() == old(self).as_map().insert(
                key as int,
                old(self).bucket_or_empty(key as int).push(hash),
            ),
    {
        let ghost pre = *self;
        let i = self.find_pos(key);
        let n = self.entries.len();
        if i < n && self.entries[i].key == key {
            let mut b = self.entries.remove(i);
            b.hashes.push(hash);
            self.entries.insert(i, b);
            proof {
                assert(self.entries@ =~= pre.entries@.update(
                    i as int,
                    Bucket { key, hashes: b.hashes },
                ));
                assert forall|a: int, c: int| 0 <= a < c < self.entries@.len() implies self.entries@[a].key
                    < self.entries@[c].key by {
                    assert(self.entries@[a].key == pre.entries@[a].key);
                    assert(self.entries@[c].key == pre.entries@[c].key);
                }
                assert(self.wf());
                pre.lemma_index_of_key(i as int);
                assert forall|k: int| #![auto] true implies {
                    &&& (self.has_bucket(k) <==> pre.has_bucket(k))
                    &&& (self.has_bucket(k) && k != key ==> self.bucket_at(k) == pre.bucket_at(k))
                } by {
                    assert forall|j: int| 0 <= j < self.entries@.len() implies self.entries@[j].key
                        == pre.entries@[j].key by {}
                    if self.has_bucket(k) {
                        let j = self.bucket_index(k);
                        assert(pre.entries@[j].key == k);
                        assert(pre.has_bucket(k));
                    }
                    if pre.has_bucket(k) {
                        let j = pre.bucket_index(k);
                        assert(self.entries@[j].key == k);
                        assert(self.has_bucket(k));
                    }
                    if self.has_bucket(k) && k != key {
                        let j = pre.bucket_index(k);
                        pre.lemma_index_of_key(j);
                        self.lemma_index_of_key(j);
                        assert(j != i);
                        assert(self.bucket_at(k) == pre.bucket_at(k));
                    }
                }
                self.lemma_index_of_key(i as int);
                assert(self.bucket_at(key as int) == pre.bucket_at(key as int).push(hash));
                assert(self.as_map() =~= pre.as_map().insert(
                    key as int,
                    pre.bucket_or_empty(key as int).push(hash),
                ));
            }
        } else {
            let mut hs: Vec<Option<String>> = Vec::new();
            hs.push(hash);
            self.entries.insert(i, Bucket { key, hashes: hs });
            proof {
                let s = self.entries@;
                let p = pre.entries@;
                assert(s.len() == p.len() + 1);
                assert(forall|j: int| 0 <= j < i ==> s[j] == p[j]);
                assert(s[i as int].key == key);
                assert(forall|j: int| i < j < s.len() ==> s[j] == p[j - 1]);
                // the old key at position i (if any) is strictly above `key`
                assert(i < p.len() ==> p[i as int].key > key);
                assert forall|a: int, c: int| 0 <= a < c < s.len() implies s[a].key < s[c].key by {
                    if a < i && c > i {
                        assert(p[a].key < key || a == i);
                        assert(p[c - 1].key >= key);
                    }
                }
                assert(self.wf());
                // no bucket with this key existed before
                assert forall|j: int| 0 <= j < p.len() implies p[j].key != key by {
                    if j < i {
                        assert(p[j].key < key);
                    } else {
                        assert(p[j].key >= key);
                        if p[j].key == key {
                            assert(i < p.len());
                            assert(p[i as int].key <= p[j].key);
                        }
                    }
                }
                assert(!pre.has_bucket(key as int));
                assert forall|k: int| k != key implies {
                    &&& (self.has_bucket(k) <==> pre.has_bucket(k))
                    &&& (self.has_bucket(k) ==> self.bucket_at(k) == pre.bucket_at(k))
                } by {
                    if self.has_bucket(k) {
                        let j = self.bucket_index(k);
                        assert(0 <= j < s.len() && s[j].key == k);
                        assert(j != i);
                        if j < i {
                            assert(p[j].key == k);
                        } else {
                            assert(p[j - 1].key == k);
                        }
                        assert(pre.has_bucket(k));
                    }
                    if pre.has_bucket(k) {
                        let j = pre.bucket_index(k);
                        assert(0 <= j < p.len() && p[j].key == k);
                        if j < i {
                            assert(s[j].key == k);
                        } else {
                            assert(s[j + 1].key == k);
                        }
                        assert(self.has_bucket(k));
                    }
                    if self.has_bucket(k) {
                        let j = pre.bucket_index(k);
                        pre.lemma_index_of_key(j);
                        if j < i {
                            self.lemma_index_of_key(j);
                            assert(s[j] == p[j]);
                        } else {
                            self.lemma_index_of_key(j + 1);
                            assert(s[j + 1] == p[j]);
                        }
                        assert(self.bucket_at(k) == pre.bucket_at(k));
                    }
                }
                self.lemma_index_of_key(i as int);
                assert(self.bucket_at(key as int) =~= Seq::<Option<String>>::empty().push(hash));
                assert(self.as_map() =~= pre.as_map().insert(
                    key as int,
                    pre.bucket_or_empty(key as int).push(hash),
                ));
            }
        }
    }
}

/// The bucket mapping that classifying `entries` in order produces: each
/// entry with a bucket key appends its hash to that bucket, each entry
/// without one is skipped.
pub open spec fn buckets_of(entries: Seq<MapEntry>, precision_milli: int) -> Map<
    int,
    Seq<Option<String>>,
>
    decreases entries.len(),
{
    if entries.len() == 0 {
        Map::empty()
    } else {
        let m = buckets_of(entries.drop_last(), precision_milli);
        let e = entries.last();
        match key_of_outcome(e.perf, precision_milli) {
            Some(k) => m.insert(
                k,
                (if m.contains_key(k) {
                    m[k]
                } else {
                    Seq::empty()
                }).push(e.hash),
            ),
            None => m,
        }
    }
}

/// Classifies a batch of maps: an explicit reduction from the per-map
/// entries to the bucket mapping. Per-map skips never abort the batch; the
/// result is exactly the mapping `buckets_of` describes, with its buckets in
/// ascending key order.
pub fn classify(entries: Vec<MapEntry>, precision_milli: u32) -> (b: BucketMap)
    requires
        precision_milli > 0,
    ensures
        b.wf(),
        b.as_map() == buckets_of(entries@, precision_milli as int),
{
    let ghost all = entries@;
    let mut entries = entries;
    let mut b = BucketMap::new();
    proof {
        assert(all.take(0) =~= Seq::<MapEntry>::empty());
    }
    while entries.len() > 0
        invariant
            precision_milli > 0,
            entries@.len() <= all.len(),
            entries@ == all.skip(all.len() - entries@.len()),
            b.wf(),
            b.as_map() == buckets_of(
                all.take(all.len() - entries@.len()),
                precision_milli as int,
            ),
        decreases entries@.len(),
    {
        let ghost i = all.len() - entries@.len();
        let e = entries.remove(0);
        proof {
            assert(e == all.skip(i)[0]);
            assert(e == all[i]);
            assert(entries@ =~= all.skip(i + 1));
            assert(all.take(i + 1).drop_last() =~= all.take(i));
            assert(all.take(i + 1).last() == all[i]);
        }
        let ghost pre_b = b;
        let ghost before = b.as_map();
        match classify_one(&e.perf, precision_milli) {
            Ok(k) => {
                b.insert(k, e.hash);
                proof {
                    assert(key_of_outcome(e.perf, precision_milli as int) == Some(k as int));
                    assert(before.contains_key(k as int) == pre_b.has_bucket(k as int));
                    assert(pre_b.has_bucket(k as int) ==> before[k as int] == pre_b.bucket_at(
                        k as int,
                    ));
                    assert(pre_b.bucket_or_empty(k as int) == (if before.contains_key(k as int) {
                        before[k as int]
                    } else {
                        Seq::<Option<String>>::empty()
                    }));
                }
            },
            Err(_) => {
                proof {
                    assert(key_of_outcome(e.perf, precision_milli as int) is None);
                }
            },
        }
        proof {
            assert(b.as_map() == buckets_of(all.take(i + 1), precision_milli as int));
        }
    }
    proof {
        assert(all.take(all.len() as int) =~= all);
    }
    b
}

} // verus!
