//! Append-only secondary indices: for each key, the identifiers that were
//! filed under it, in the order in which they were filed.

use vstd::prelude::*;
use crate::identity::Identity;

verus! {

/// The key of one index bucket.
#[derive(Clone, Copy, Debug, PartialEq, Eq, Structural)]
pub enum IndexKey {
    /// Everything that names this identity as its customer.
    Customer(Identity),
    /// Everything that names this identity as its merchant.
    Merchant(Identity),
    /// Everything that refers to the payment with this identifier.
    Payment(u64),
}

/// The part of `s` that a query with this offset and limit selects: nothing
/// when the offset lies at or beyond the end, else the entries from `offset`
/// up to, but not including, `offset + limit` or the end, whichever comes first.
pub open spec fn window<T>(s: Seq<T>, offset: nat, limit: nat) -> Seq<T> {
    if offset >= s.len() {
        Seq::empty()
    } else if offset + limit >= s.len() {
        s.subrange(offset as int, s.len() as int)
    } else {
        s.subrange(offset as int, (offset + limit) as int)
    }
}

/// A query whose offset lies at or beyond the end selects nothing.
pub proof fn lemma_window_beyond_end<T>(s: Seq<T>, offset: nat, limit: nat)
    requires
        offset >= s.len(),
    ensures
        window(s, offset, limit) == Seq::<T>::empty(),
{
}

/// A query whose limit reaches the end or beyond selects exactly the
/// entries that remain from the offset on.
pub proof fn lemma_window_remaining<T>(s: Seq<T>, offset: nat, limit: nat)
    requires
        offset <= s.len(),
        offset + limit >= s.len(),
    ensures
        window(s, offset, limit) == s.subrange(offset as int, s.len() as int),
{
}

/// The number of entries that a query selects, and which entry of the
/// sequence stands at each place of the selection.
pub proof fn lemma_window_entries<T>(s: Seq<T>, offset: nat, limit: nat)
    ensures
        window(s, offset, limit).len() == if offset >= s.len() {
            0
        } else if offset + limit >= s.len() {
            s.len() - offset
        } else {
            limit as int
        },
        forall|k: int|
            0 <= k < window(s, offset, limit).len() ==> window(s, offset, limit)[k] == s[offset
                + k],
{
}

/// Two queries of which the second starts where the first one's limit
/// ended select, one after the other, what a single query with both limits
/// selects: consecutive windows neither overlap nor leave an entry out.
pub proof fn lemma_window_consecutive<T>(s: Seq<T>, offset: nat, first: nat, second: nat)
    ensures
        window(s, offset, first) + window(s, offset + first, second) == window(
            s,
            offset,
            first + second,
        ),
{
}

/// What an index needs to know of a record: its identifier, and the keys
/// under which it is filed.
pub trait Record {
    /// The identifier of the record.
    spec fn id(&self) -> u64;

    /// Whether the record belongs in the bucket with this key.
    spec fn files_under(&self, key: IndexKey) -> bool;
}

/// Whether the records are numbered 1, 2, 3, ... in their order.
pub open spec fn numbered<R: Record>(records: Seq<R>) -> bool {
    forall|i: int| 0 <= i < records.len() ==> (#[trigger] records[i]).id() == i + 1
}

/// The identifiers of the records that belong under `key`, in the order of
/// the records.
pub open spec fn ids_under<R: Record>(records: Seq<R>, key: IndexKey) -> Seq<u64>
    decreases records.len(),
{
    if records.len() == 0 {
        Seq::empty()
    } else if records.last().files_under(key) {
        ids_under(records.drop_last(), key).push(records.last().id())
    } else {
        ids_under(records.drop_last(), key)
    }
}

/// The record with each of the given identifiers, in their order, where
/// the record with identifier `n` is the `n`-th.
pub open spec fn resolve<R>(records: Seq<R>, ids: Seq<u64>) -> Seq<R> {
    Seq::new(ids.len(), |k: int| records[ids[k] - 1])
}

/// Records that agree, place by place, on their identifier and on the
/// keys under which they are filed have the same identifiers under every
/// key.
pub proof fn lemma_ids_under_same_filing<R: Record>(a: Seq<R>, b: Seq<R>, key: IndexKey)
    requires
        a.len() == b.len(),
        forall|i: int|
            0 <= i < a.len() ==> a[i].id() == b[i].id() && a[i].files_under(key)
                == b[i].files_under(key),
    ensures
        ids_under(a, key) == ids_under(b, key),
    decreases a.len(),
{
    if a.len() > 0 {
        lemma_ids_under_same_filing(a.drop_last(), b.drop_last(), key);
    }
}

/// Where the records are numbered 1, 2, 3, ... in their order, each
/// identifier under a key is that of a record which belongs there, and the
/// identifiers under a key ascend.
pub proof fn lemma_ids_under_resolve<R: Record>(records: Seq<R>, key: IndexKey)
    requires
        numbered(records),
    ensures
        ids_under(records, key).len() <= records.len(),
        forall|k: int|
            0 <= k < ids_under(records, key).len() ==> 1 <= #[trigger] ids_under(records, key)[k]
                <= records.len() && records[ids_under(records, key)[k] - 1].files_under(key),
        forall|j: int, k: int|
            0 <= j < k < ids_under(records, key).len() ==> ids_under(records, key)[j] < ids_under(
                records,
                key,
            )[k],
    decreases records.len(),
{
    if records.len() > 0 {
        assert(numbered(records.drop_last()));
        lemma_ids_under_resolve(records.drop_last(), key);
    }
}

/// The identifiers under a key are those of the records that belong there,
/// one for each: as many as records came with that key.
pub proof fn lemma_ids_under_counts<R: Record>(records: Seq<R>, key: IndexKey)
    ensures
        ids_under(records, key) == records.filter(
            |record: R| record.files_under(key),
        ).map_values(|record: R| record.id()),
    decreases records.len(),
{
    let belongs = |record: R| record.files_under(key);
    let id_of = |record: R| record.id();
    reveal(Seq::filter);
    if records.len() > 0 {
        lemma_ids_under_counts(records.drop_last(), key);
        let before = records.drop_last().filter(belongs);
        if records.last().files_under(key) {
        }
    }
}

/// Two pages of which the second starts where the first one's limit ended
/// hold, one after the other, what a single page with both limits holds.
pub proof fn lemma_pages_consecutive<R>(
    records: Seq<R>,
    ids: Seq<u64>,
    offset: nat,
    first: nat,
    second: nat,
)
    ensures
        resolve(records, window(ids, offset, first)) + resolve(
            records,
            window(ids, offset + first, second),
        ) == resolve(records, window(ids, offset, first + second)),
{
    lemma_window_consecutive(ids, offset, first, second);
}

/// A page whose offset lies at or beyond the number of identifiers is
/// empty.
pub proof fn lemma_page_beyond_end<R>(records: Seq<R>, ids: Seq<u64>, offset: nat, limit: nat)
    requires
        offset >= ids.len(),
    ensures
        resolve(records, window(ids, offset, limit)) == Seq::<R>::empty(),
{
}

/// A page whose limit reaches the end or beyond holds exactly the records
/// that remain from the offset on, each once and in their order.
pub proof fn lemma_page_remaining<R>(records: Seq<R>, ids: Seq<u64>, offset: nat, limit: nat)
    requires
        offset <= ids.len(),
        offset + limit >= ids.len(),
    ensures
        resolve(records, window(ids, offset, limit)).len() == ids.len() - offset,
        forall|k: int|
            0 <= k < ids.len() - offset ==> resolve(records, window(ids, offset, limit))[k]
                == records[ids[offset + k] - 1],
{
    lemma_window_remaining(ids, offset, limit);
}

/// One bucket: a key and the identifiers filed under it, oldest first.
struct Bucket {
    key: IndexKey,
    ids: Vec<u64>,
}

/// A set of buckets, at most one per key. A key without a bucket stands
/// for the empty sequence.
pub struct Index {
    buckets: Vec<Bucket>,
}

impl Index {
    /// No two buckets share a key.
    pub closed spec fn wf(&self) -> bool {
        forall|i: int, j: int|
            0 <= i < j < self.buckets.len() ==> self.buckets[i].key != self.buckets[j].key
    }

    /// Whether anything was filed under `key`.
    spec fn has_bucket(&self, key: IndexKey) -> bool {
        exists|i: int| 0 <= i < self.buckets.len() && self.buckets[i].key == key
    }

    /// The identifiers filed under `key`, oldest first.
    pub closed spec fn ids(&self, key: IndexKey) -> Seq<u64> {
        if self.has_bucket(key) {
            let i = choose|i: int| 0 <= i < self.buckets.len() && self.buckets[i].key == key;
            self.buckets[i].ids@
        } else {
            Seq::empty()
        }
    }

    /// An index with nothing filed in it.
    pub fn new() -> (index: Index)
        ensures
            index.wf(),
            forall|key: IndexKey| index.ids(key) == Seq::<u64>::empty(),
    {
        Index { buckets: Vec::new() }
    }

    /// With distinct keys, the bucket that carries `key` is the one that
    /// `ids` reads.
    proof fn lemma_ids_at(&self, i: int, key: IndexKey)
        requires
            self.wf(),
            0 <= i < self.buckets.len(),
            self.buckets[i].key == key,
        ensures
            self.has_bucket(key),
            self.ids(key) == self.buckets[i].ids@,
    {
        let j = choose|j: int| 0 <= j < self.buckets.len() && self.buckets[j].key == key;
        assert(i == j);
    }

    /// Where the bucket with this key stands, if there is one.
    fn find(&self, key: IndexKey) -> (found: Option<usize>)
        requires
            self.wf(),
        ensures
            match found {
                Some(i) => i < self.buckets.len() && self.buckets[i as int].key == key
                    && self.ids(key) == self.buckets[i as int].ids@,
                None => !self.has_bucket(key) && self.ids(key) == Seq::<u64>::empty(),
            },
    {
        let mut i: usize = 0;
        while i < self.buckets.len()
            invariant
                self.wf(),
                i <= self.buckets.len(),
                forall|j: int| 0 <= j < i ==> self.buckets[j].key != key,
            decreases self.buckets.len() - i,
        {
            if self.buckets[i].key == key {
                proof {
                    self.lemma_ids_at(i as int, key);
                }
                return Some(i);
            }
            i += 1;
        }
        None
    }

    /// Files `id` under `key`, behind everything filed there before. The
    /// other buckets stay as they are.
    pub fn append(&mut self, key: IndexKey, id: u64)
        requires
            old(self).wf(),
        ensures
            final(self).wf(),
            final(self).ids(key) == old(self).ids(key).push(id),
            forall|other: IndexKey| other != key ==> final(self).ids(other) == old(self).ids(other),
    {
        let ghost before = *self;
        match self.find(key) {
            Some(i) => {
                self.buckets[i].ids.push(id);
                proof {
                    self.lemma_ids_at(i as int, key);
                    assert forall|other: IndexKey| other != key implies self.ids(other)
                        == before.ids(other) by {
                        if before.has_bucket(other) {
                            let j = choose|j: int|
                                0 <= j < before.buckets.len() && before.buckets[j].key == other;
                            before.lemma_ids_at(j, other);
                            self.lemma_ids_at(j, other);
                        }
                    }
                }
            },
            None => {
                let mut ids: Vec<u64> = Vec::new();
                ids.push(id);
                self.buckets.push(Bucket { key, ids });
                proof {
                    let n = before.buckets.len() as int;
                    self.lemma_ids_at(n, key);
                    assert forall|other: IndexKey| other != key implies self.ids(other)
                        == before.ids(other) by {
                        if before.has_bucket(other) {
                            let j = choose|j: int|
                                0 <= j < before.buckets.len() && before.buckets[j].key == other;
                            before.lemma_ids_at(j, other);
                            self.lemma_ids_at(j, other);
                        }
                    }
                }
            },
        }
    }

    /// How many identifiers are filed under `key`: 0 for a key that was
    /// never used.
    pub fn count(&self, key: IndexKey) -> (n: u64)
        requires
            self.wf(),
        ensures
            n == self.ids(key).len(),
    {
        match self.find(key) {
            Some(i) => self.buckets[i].ids.len() as u64,
            None => 0,
        }
    }

    /// The identifiers filed under `key` that the query selects, oldest first.
    pub fn page(&self, key: IndexKey, limit: u64, offset: u64) -> (out: Vec<u64>)
        requires
            self.wf(),
        ensures
            out@ == window(self.ids(key), offset as nat, limit as nat),
    {
        let mut out: Vec<u64> = Vec::new();
        match self.find(key) {
            None => {},
            Some(b) => {
                let ids = &self.buckets[b].ids;
                let total: usize = ids.len();
                if offset < total as u64 {
                    let start: usize = offset as usize;
                    let rest: usize = total - start;
                    let take: usize = if limit >= rest as u64 {
                        rest
                    } else {
                        limit as usize
                    };
                    let end: usize = start + take;
                    let mut i: usize = start;
                    while i < end
                        invariant
                            start <= i <= end <= ids.len(),
                            out@ == ids@.subrange(start as int, i as int),
                        decreases end - i,
                    {
                        out.push(ids[i]);
                        i += 1;
                    }
                }
            },
        }
        out
    }
}

} // verus!
