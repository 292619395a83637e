//! The collection store's in-memory form and the synchronizer.
//!
//! One synchronization pass first removes every collection generated by a
//! previous run — recognized by the configured name prefix — and then
//! appends one freshly named collection per bucket. Removal runs strictly
//! before appending; the order is load-bearing, so `sync_collections` does
//! both in one call.

use vstd::prelude::*;

verus! {

use crate::classify::Bucket;
use crate::classify::BucketMap;
use crate::classify::buckets_wf;
use crate::text::collection_name;
use crate::text::collection_name_spec;
use crate::text::lemma_collection_name_prefixed;
use crate::text::str_has_prefix;

/// One persisted collection: an optional display name and the ordered
/// beatmap hashes it holds. A `None` hash denotes a reference the store
/// could not resolve and is preserved verbatim.
pub struct Collection {
    pub name: Option<String>,
    pub beatmap_hashes: Vec<Option<String>>,
}

/// Whether a collection survives the removal pass: it is user-created, that
/// is, its name is absent or does not start with the configured prefix.
pub open spec fn retained(c: Collection, prefix: Seq<char>) -> bool {
    match c.name {
        None => true,
        Some(n) => !prefix.is_prefix_of(n@),
    }
}

/// The store after the removal pass: exactly the retained collections, in
/// their original relative order.
pub open spec fn remove_previous_spec(s: Seq<Collection>, prefix: Seq<char>) -> Seq<Collection>
    decreases s.len(),
{
    if s.len() == 0 {
        Seq::empty()
    } else {
        let rest = remove_previous_spec(s.drop_last(), prefix);
        if retained(s.last(), prefix) {
            rest.push(s.last())
        } else {
            rest
        }
    }
}

pub proof fn lemma_remove_previous_len(s: Seq<Collection>, prefix: Seq<char>)
    ensures
        remove_previous_spec(s, prefix).len() <= s.len(),
    decreases s.len(),
{
    if s.len() > 0 {
        lemma_remove_previous_len(s.drop_last(), prefix);
    }
}

/// Every collection the removal pass keeps is a retained one.
pub proof fn lemma_remove_previous_elements(s: Seq<Collection>, prefix: Seq<char>)
    ensures
        forall|i: int|
            0 <= i < remove_previous_spec(s, prefix).len() ==> retained(
                #[trigger] remove_previous_spec(s, prefix)[i],
                prefix,
            ),
    decreases s.len(),
{
    if s.len() > 0 {
        lemma_remove_previous_elements(s.drop_last(), prefix);
        let rest = remove_previous_spec(s.drop_last(), prefix);
        let out = remove_previous_spec(s, prefix);
        if retained(s.last(), prefix) {
            assert forall|i: int| 0 <= i < out.len() implies retained(out[i], prefix) by {
                if i < rest.len() {
                    assert(out[i] == rest[i]);
                } else {
                    assert(out[i] == s.last());
                }
            }
        }
    }
}

/// The removal pass distributes over concatenation.
pub proof fn lemma_remove_previous_app(a: Seq<Collection>, b: Seq<Collection>, prefix: Seq<char>)
    ensures
        remove_previous_spec(a + b, prefix) == remove_previous_spec(a, prefix)
            + remove_previous_spec(b, prefix),
    decreases b.len(),
{
    if b.len() == 0 {
        assert(a + b =~= a);
        assert(remove_previous_spec(a, prefix) + remove_previous_spec(b, prefix)
            =~= remove_previous_spec(a, prefix));
    } else {
        lemma_remove_previous_app(a, b.drop_last(), prefix);
        assert((a + b).drop_last() =~= a + b.drop_last());
        assert((a + b).last() == b.last());
        if retained(b.last(), prefix) {
            assert(remove_previous_spec(a, prefix) + remove_previous_spec(b.drop_last(),
            prefix).push(b.last()) =~= (remove_previous_spec(a, prefix)
                + remove_previous_spec(b.drop_last(), prefix)).push(b.last()));
        }
    }
}

/// A store of retained collections passes through removal unchanged.
pub proof fn lemma_remove_previous_all_retained(s: Seq<Collection>, prefix: Seq<char>)
    requires
        forall|i: int| 0 <= i < s.len() ==> retained(#[trigger] s[i], prefix),
    ensures
        remove_previous_spec(s, prefix) == s,
    decreases s.len(),
{
    if s.len() > 0 {
        lemma_remove_previous_all_retained(s.drop_last(), prefix);
        assert(s.drop_last().push(s.last()) =~= s);
    }
}

/// A store with no retained collection is emptied by removal.
pub proof fn lemma_remove_previous_none_retained(s: Seq<Collection>, prefix: Seq<char>)
    requires
        forall|i: int| 0 <= i < s.len() ==> !retained(#[trigger] s[i], prefix),
    ensures
        remove_previous_spec(s, prefix) == Seq::<Collection>::empty(),
    decreases s.len(),
{
    if s.len() > 0 {
        lemma_remove_previous_none_retained(s.drop_last(), prefix);
    }
}

/// Removes every previously generated collection: retains exactly those
/// whose name is absent or does not start with `prefix`, in their original
/// order, and returns how many were removed.
pub fn remove_previous_collections(collections: &mut Vec<Collection>, prefix: &str) -> (removed:
    usize)
    ensures
        final(collections)@ == remove_previous_spec(old(collections)@, prefix@),
        removed == old(collections)@.len() - final(collections)@.len(),
{
    let ghost orig = collections@;
    let original_len = collections.len();
    let mut kept: Vec<Collection> = Vec::new();
    proof {
        assert(orig.take(0) =~= Seq::<Collection>::empty());
    }
    while collections.len() > 0
        invariant
            collections@.len() <= orig.len(),
            collections@ == orig.skip(orig.len() - collections@.len()),
            kept@ == remove_previous_spec(orig.take(orig.len() - collections@.len()), prefix@),
        decreases collections@.len(),
    {
        let ghost i = orig.len() - collections@.len();
        let c = collections.remove(0);
        proof {
            assert(c == orig.skip(i)[0]);
            assert(c == orig[i]);
            assert(collections@ =~= orig.skip(i + 1));
            assert(orig.take(i + 1).drop_last() =~= orig.take(i));
            assert(orig.take(i + 1).last() == orig[i]);
        }
        let keep = match &c.name {
            Some(n) => !str_has_prefix(n.as_str(), prefix),
            None => true,
        };
        proof {
            assert(keep == retained(c, prefix@));
        }
        if keep {
            kept.push(c);
        }
    }
    proof {
        assert(orig.take(orig.len() as int) =~= orig);
        lemma_remove_previous_len(orig, prefix@);
    }
    let kept_len = kept.len();
    collections.append(&mut kept);
    original_len - kept_len
}

/// The collection a bucket turns into: named from the prefix and the bucket
/// key, holding exactly the bucket's hashes in order.
pub open spec fn bucket_collection_ok(c: Collection, prefix: Seq<char>, b: Bucket) -> bool {
    &&& c.name matches Some(n) && n@ == collection_name_spec(prefix, b.key as nat)
    &&& c.beatmap_hashes@ == b.hashes@
}

/// Appends one newly named collection per bucket, in ascending key order,
/// and returns how many were appended. Existing collections are untouched.
/// Every appended collection carries the prefix, so none of them is
/// retained by a later removal pass.
pub fn add_new_collections(collections: &mut Vec<Collection>, buckets: BucketMap, prefix: &str)
    -> (added: usize)
    requires
        buckets.wf(),
    ensures
        final(collections)@.len() == old(collections)@.len() + buckets.entries@.len(),
        final(collections)@.subrange(0, old(collections)@.len() as int) == old(collections)@,
        forall|i: int|
            0 <= i < buckets.entries@.len() ==> bucket_collection_ok(
                #[trigger] final(collections)@[old(collections)@.len() + i],
                prefix@,
                buckets.entries@[i],
            ) && !retained(final(collections)@[old(collections)@.len() + i], prefix@),
        added == buckets.entries@.len(),
{
    let ghost orig = collections@;
    let ghost bs = buckets.entries@;
    let mut entries = buckets.entries;
    let added = entries.len();
    while entries.len() > 0
        invariant
            buckets_wf(bs),
            entries@.len() <= bs.len(),
            entries@ == bs.skip(bs.len() - entries@.len()),
            collections@.len() == orig.len() + bs.len() - entries@.len(),
            collections@.subrange(0, orig.len() as int) == orig,
            forall|j: int|
                0 <= j < bs.len() - entries@.len() ==> bucket_collection_ok(
                    #[trigger] collections@[orig.len() + j],
                    prefix@,
                    bs[j],
                ) && !retained(collections@[orig.len() + j], prefix@),
        decreases entries@.len(),
    {
        let ghost i = bs.len() - entries@.len();
        let b = entries.remove(0);
        proof {
            assert(b == bs.skip(i)[0]);
            assert(b == bs[i]);
            assert(entries@ =~= bs.skip(i + 1));
            assert(bs[i].key <= 100);
        }
        let name = collection_name(prefix, b.key);
        proof {
            lemma_collection_name_prefixed(prefix@, b.key as nat);
        }
        let ghost pre = collections@;
        collections.push(Collection { name: Some(name), beatmap_hashes: b.hashes });
        proof {
            assert(collections@.subrange(0, orig.len() as int) =~= pre.subrange(
                0,
                orig.len() as int,
            ));
        }
    }
    added
}

/// One full synchronization pass over the store: first the removal of the
/// previously generated collections, then the appending of the new ones —
/// strictly in that order. Returns how many collections were removed and how
/// many were added.
pub fn sync_collections(collections: &mut Vec<Collection>, buckets: BucketMap, prefix: &str)
    -> (counts: (usize, usize))
    requires
        buckets.wf(),
    ensures
        ({
            let kept = remove_previous_spec(old(collections)@, prefix@);
            &&& final(collections)@.len() == kept.len() + buckets.entries@.len()
            &&& final(collections)@.subrange(0, kept.len() as int) == kept
            &&& forall|i: int|
                0 <= i < buckets.entries@.len() ==> bucket_collection_ok(
                    #[trigger] final(collections)@[kept.len() + i],
                    prefix@,
                    buckets.entries@[i],
                ) && !retained(final(collections)@[kept.len() + i], prefix@)
            &&& counts.0 == old(collections)@.len() - kept.len()
            &&& counts.1 == buckets.entries@.len()
        }),
{
    let removed = remove_previous_collections(collections, prefix);
    let added = add_new_collections(collections, buckets, prefix);
    (removed, added)
}

/// A synchronization pass never removes, reorders or alters a collection
/// whose name lacks the prefix: running the removal pass over the
/// synchronized store gives back exactly the retained part of the original
/// store. `result` is the store after a pass that kept the retained
/// collections and appended `added`, all of which carry the prefix.
pub proof fn lemma_sync_preserves_unprefixed(
    orig: Seq<Collection>,
    added: Seq<Collection>,
    prefix: Seq<char>,
)
    requires
        forall|i: int| 0 <= i < added.len() ==> !retained(#[trigger] added[i], prefix),
    ensures
        remove_previous_spec(remove_previous_spec(orig, prefix) + added, prefix)
            == remove_previous_spec(orig, prefix),
{
    let kept = remove_previous_spec(orig, prefix);
    lemma_remove_previous_app(kept, added, prefix);
    lemma_remove_previous_elements(orig, prefix);
    lemma_remove_previous_all_retained(kept, prefix);
    lemma_remove_previous_none_retained(added, prefix);
    assert(kept + Seq::<Collection>::empty() =~= kept);
}

/// Synchronizing twice with the same buckets gives the same store as
/// synchronizing once: the second removal pass removes exactly the
/// collections the first pass appended, and the same ones are appended
/// again. Classification is a pure function of its inputs, so with an
/// unchanged library the second run's `added` is the first run's.
pub proof fn lemma_sync_idempotent(
    orig: Seq<Collection>,
    added: Seq<Collection>,
    prefix: Seq<char>,
)
    requires
        forall|i: int| 0 <= i < added.len() ==> !retained(#[trigger] added[i], prefix),
    ensures
        ({
            let once = remove_previous_spec(orig, prefix) + added;
            let twice = remove_previous_spec(once, prefix) + added;
            twice == once
        }),
{
    lemma_sync_preserves_unprefixed(orig, added, prefix);
}

} // verus!
