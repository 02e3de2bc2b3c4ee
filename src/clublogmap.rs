//! An indexed form of the reference table: for each kind of record, a hash map from
//! the hash of a key to the positions of the records with that hash, in table order.
//! A query looks at those records only and answers exactly as a scan of the whole
//! list would.

use crate::clublog::{
    Adif, CallsignException, ClubLog, CqZone, Entity, InvalidOperation, Prefix, Timestamp,
    ZoneException,
};
use crate::clublogquery::{
    deref_opt, first_match, is_in_time_window, keyed_pred, lemma_first_match_skip, ClubLogQuery,
    KeyedRecord, TableModel,
};
use crate::text::str_eq;
use std::collections::HashMap;
use vstd::prelude::*;

verus! {

broadcast use vstd::std_specs::hash::group_hash_axioms;

/// Modulus of the key hash.
pub const HASH_MODULUS: u64 = 1_000_000_007;

/// Polynomial hash of a key's characters.
pub open spec fn key_hash(s: Seq<char>) -> u64
    decreases s.len(),
{
    if s.len() == 0 {
        0
    } else {
        ((key_hash(s.drop_last()) as int * 31 + (s.last() as u32) as int) % (HASH_MODULUS as int)) as u64
    }
}

/// Computes `key_hash` of a string.
pub fn hash_key(s: &str) -> (h: u64)
    ensures
        h == key_hash(s@),
        h < HASH_MODULUS,
{
    let n = s.unicode_len();
    let mut h: u64 = 0;
    let mut i: usize = 0;
    assert(s@.take(0) =~= Seq::<char>::empty());
    while i < n
        invariant
            n == s@.len(),
            i <= n,
            h == key_hash(s@.take(i as int)),
            h < HASH_MODULUS,
        decreases n - i,
    {
        let c = s.get_char(i);
        assert(s@.take(i + 1).drop_last() =~= s@.take(i as int));
        assert(s@.take(i + 1).last() == c);
        h = (h * 31 + c as u32 as u64) % HASH_MODULUS;
        i = i + 1;
    }
    assert(s@.take(n as int) =~= s@);
    h
}

/// The positions in `bucket` are increasing, all hold records whose key hashes to `h`,
/// and every such record is there.
pub open spec fn bucket_ok(bucket: Seq<usize>, keys: Seq<u64>, h: u64) -> bool {
    &&& forall|a: int, c: int| 0 <= a < c < bucket.len() ==> bucket[a] < bucket[c]
    &&& forall|k: int|
        0 <= k < bucket.len() ==> #[trigger] bucket[k] < keys.len() && keys[bucket[k] as int] == h
    &&& forall|i: int|
        0 <= i < keys.len() && #[trigger] keys[i] == h ==> exists|k: int|
            0 <= k < bucket.len() && bucket[k] == i
}

/// Positions of records, by the hash of their key.
struct KeyIndex {
    buckets: HashMap<u64, Vec<usize>>,
}

impl KeyIndex {
    /// The index holds the records whose key hashes are `keys`, in that order.
    spec fn indexes(&self, keys: Seq<u64>) -> bool {
        &&& forall|h: u64| #[trigger]
            self.buckets@.contains_key(h) ==> bucket_ok(self.buckets@[h]@, keys, h)
        &&& forall|i: int| 0 <= i < keys.len() ==> self.buckets@.contains_key(#[trigger] keys[i])
    }

    fn new() -> (r: KeyIndex)
        ensures
            r.indexes(Seq::empty()),
    {
        KeyIndex { buckets: HashMap::new() }
    }

    /// Records one more record, at position `pos`, whose key hashes to `h`.
    fn add(&mut self, Ghost(keys): Ghost<Seq<u64>>, h: u64, pos: usize)
        requires
            old(self).indexes(keys),
            pos == keys.len(),
        ensures
            final(self).indexes(keys.push(h)),
    {
        let ghost old_buckets = self.buckets@;
        let mut b = match self.buckets.remove(&h) {
            Some(b) => b,
            None => Vec::new(),
        };
        let ghost old_b = b@;
        assert(old_buckets.contains_key(h) ==> old_b == old_buckets[h]@);
        assert(!old_buckets.contains_key(h) ==> old_b == Seq::<usize>::empty());
        b.push(pos);
        self.buckets.insert(h, b);
        let ghost nkeys = keys.push(h);
        assert forall|g: u64| #[trigger] self.buckets@.contains_key(g) implies bucket_ok(
            self.buckets@[g]@,
            nkeys,
            g,
        ) by {
            if g == h {
                let nb = self.buckets@[g]@;
                assert(nb == old_b.push(pos));
                if old_buckets.contains_key(h) {
                    assert(bucket_ok(old_b, keys, h));
                } else {
                    assert forall|i: int| 0 <= i < keys.len() implies keys[i] != h by {
                        assert(old_buckets.contains_key(keys[i]));
                    }
                }
                assert forall|k: int| 0 <= k < nb.len() implies #[trigger] nb[k] < nkeys.len()
                    && nkeys[nb[k] as int] == g by {
                    if k < old_b.len() {
                        assert(nb[k] == old_b[k]);
                    }
                }
                assert forall|i: int| 0 <= i < nkeys.len() && #[trigger] nkeys[i] == g implies exists|
                    k: int,
                | 0 <= k < nb.len() && nb[k] == i by {
                    if i == keys.len() {
                        assert(nb[nb.len() - 1] == i);
                    } else {
                        assert(keys[i] == h);
                        let k = choose|k: int| 0 <= k < old_b.len() && old_b[k] == i;
                        assert(nb[k] == i);
                    }
                }
            } else {
                assert(old_buckets.contains_key(g));
                let ob = old_buckets[g]@;
                assert(self.buckets@[g]@ == ob);
                assert(bucket_ok(ob, keys, g));
                assert forall|k: int| 0 <= k < ob.len() implies #[trigger] ob[k] < nkeys.len()
                    && nkeys[ob[k] as int] == g by {
                    assert(ob[k] < keys.len() && keys[ob[k] as int] == g);
                }
                assert forall|i: int| 0 <= i < nkeys.len() && #[trigger] nkeys[i] == g implies exists|
                    k: int,
                | 0 <= k < ob.len() && ob[k] == i by {
                    assert(i < keys.len());
                    assert(keys[i] == g);
                }
            }
        }
        assert forall|i: int| 0 <= i < nkeys.len() implies self.buckets@.contains_key(
            #[trigger] nkeys[i],
        ) by {
            if i < keys.len() {
                assert(nkeys[i] == keys[i]);
                assert(old_buckets.contains_key(keys[i]));
            }
        }
    }

    /// The positions of the records whose key hashes to `h`, in increasing order.
    fn bucket(&self, h: u64) -> (r: Option<&Vec<usize>>)
        ensures
            r matches Some(b) ==> self.buckets@.contains_key(h) && *b == self.buckets@[h],
            r is None ==> !self.buckets@.contains_key(h),
    {
        self.buckets.get(&h)
    }
}


/// Scanning the bucket of `h` in order finds what a scan of the whole list finds,
/// where every record that `pred` holds of has key hash `h`.
proof fn lemma_bucket_scan<R>(
    s: Seq<R>,
    keys: Seq<u64>,
    bucket: Seq<usize>,
    h: u64,
    pred: spec_fn(R) -> bool,
    j: int,
)
    requires
        keys.len() == s.len(),
        bucket_ok(bucket, keys, h),
        forall|i: int| 0 <= i < s.len() && #[trigger] pred(s[i]) ==> keys[i] == h,
        0 <= j <= bucket.len(),
        forall|k: int| 0 <= k < j ==> !pred(#[trigger] s[bucket[k] as int]),
    ensures
        j < bucket.len() && pred(s[bucket[j] as int]) ==> first_match(s, pred) == Some(
            s[bucket[j] as int],
        ),
        j == bucket.len() ==> first_match(s, pred) is None,
{
    let bound = if j < bucket.len() {
        bucket[j] as int
    } else {
        s.len() as int
    };
    assert(j < bucket.len() ==> bucket[j] < keys.len());
    assert forall|i: int| 0 <= i < bound implies !pred(#[trigger] s[i]) by {
        if pred(s[i]) {
            assert(keys[i] == h);
            let k = choose|k: int| 0 <= k < bucket.len() && bucket[k] == i;
            if k >= j {
                if k > j {
                    assert(bucket[j] < bucket[k]);
                }
            }
            assert(!pred(s[bucket[k] as int]));
        }
    }
    lemma_first_match_skip(s, pred, bound);
}

/// Key hashes of the entities: their ADIF identifiers.
pub open spec fn entity_keys(s: Seq<Entity>) -> Seq<u64> {
    s.map_values(|e: Entity| e.adif as u64)
}

/// Key hashes of records keyed by a string.
pub open spec fn record_keys<R: KeyedRecord>(s: Seq<R>) -> Seq<u64> {
    s.map_values(|r: R| key_hash(r.key_chars()))
}

/// An index of the records of `list` by the hash of their key.
fn index_records<R: KeyedRecord>(list: &Vec<R>) -> (r: KeyIndex)
    ensures
        r.indexes(record_keys(list@)),
{
    let mut index = KeyIndex::new();
    let mut i: usize = 0;
    assert(record_keys(list@.take(0)) =~= Seq::<u64>::empty());
    while i < list.len()
        invariant
            i <= list@.len(),
            index.indexes(record_keys(list@.take(i as int))),
        decreases list.len() - i,
    {
        let ghost keys = record_keys(list@.take(i as int));
        let h = hash_key(list[i].key());
        index.add(Ghost(keys), h, i);
        assert(record_keys(list@.take(i + 1)) =~= keys.push(h));
        i = i + 1;
    }
    assert(list@.take(i as int) =~= list@);
    index
}

/// The first record of `list` for exactly `key` that is valid at `timestamp`, found
/// through the bucket of the key's hash in `index`.
fn bucket_first<'a, R: KeyedRecord>(
    list: &'a Vec<R>,
    index: &KeyIndex,
    key: &str,
    timestamp: &Timestamp,
) -> (r: Option<&'a R>)
    requires
        index.indexes(record_keys(list@)),
    ensures
        deref_opt(r) == first_match(list@, keyed_pred::<R>(key@, *timestamp)),
{
    let ghost keys = record_keys(list@);
    let ghost pred = keyed_pred::<R>(key@, *timestamp);
    let h = hash_key(key);
    let ghost bucket: Seq<usize> = if index.buckets@.contains_key(h) {
        index.buckets@[h]@
    } else {
        Seq::empty()
    };
    assert(bucket_ok(bucket, keys, h)) by {
        if !index.buckets@.contains_key(h) {
            assert forall|i: int| 0 <= i < keys.len() implies keys[i] != h by {
                assert(index.buckets@.contains_key(keys[i]));
            }
        }
    }
    assert forall|i: int| 0 <= i < list@.len() && #[trigger] pred(list@[i]) implies keys[i]
        == h by {}
    if let Some(b) = index.bucket(h) {
        let mut j: usize = 0;
        while j < b.len()
            invariant
                bucket == b@,
                bucket_ok(bucket, keys, h),
                keys == record_keys(list@),
                pred == keyed_pred::<R>(key@, *timestamp),
                forall|i: int| 0 <= i < list@.len() && #[trigger] pred(list@[i]) ==> keys[i] == h,
                j <= bucket.len(),
                forall|k: int| 0 <= k < j ==> !pred(#[trigger] list@[bucket[k] as int]),
            decreases b.len() - j,
        {
            let pos = b[j];
            assert(pos < keys.len());
            let rec = &list[pos];
            if str_eq(rec.key(), key) && is_in_time_window(
                timestamp,
                rec.window_start(),
                rec.window_end(),
            ) {
                proof {
                    lemma_bucket_scan(list@, keys, bucket, h, pred, j as int);
                }
                return Some(rec);
            }
            j = j + 1;
        }
        proof {
            lemma_bucket_scan(list@, keys, bucket, h, pred, j as int);
        }
        None
    } else {
        proof {
            lemma_bucket_scan(list@, keys, bucket, h, pred, 0);
        }
        None
    }
}

/// The reference table together with an index for each kind of record.
pub struct ClubLogMap {
    records: ClubLog,
    entities: KeyIndex,
    prefixes: KeyIndex,
    callsign_exceptions: KeyIndex,
    invalid_operations: KeyIndex,
    zone_exceptions: KeyIndex,
}

impl ClubLogMap {
    /// Indexes the records of `clublog`; the table keeps them and their order.
    pub fn from(clublog: ClubLog) -> (r: ClubLogMap)
        ensures
            r.well_formed(),
            r.model() == clublog.model(),
    {
        let mut entities = KeyIndex::new();
        let mut i: usize = 0;
        while i < clublog.entities.list.len()
            invariant
                i <= clublog.entities.list@.len(),
                entities.indexes(entity_keys(clublog.entities.list@.take(i as int))),
            decreases clublog.entities.list.len() - i,
        {
            let ghost keys = entity_keys(clublog.entities.list@.take(i as int));
            let h = clublog.entities.list[i].adif as u64;
            entities.add(Ghost(keys), h, i);
            assert(entity_keys(clublog.entities.list@.take(i + 1)) =~= keys.push(h));
            i = i + 1;
        }
        assert(clublog.entities.list@.take(i as int) =~= clublog.entities.list@);

        let prefixes = index_records(&clublog.prefixes.list);
        let callsign_exceptions = index_records(&clublog.exceptions.list);
        let invalid_operations = index_records(&clublog.invalid_operations.list);
        let zone_exceptions = index_records(&clublog.zone_exceptions.list);
        ClubLogMap {
            records: clublog,
            entities,
            prefixes,
            callsign_exceptions,
            invalid_operations,
            zone_exceptions,
        }
    }
}

impl ClubLogQuery for ClubLogMap {
    closed spec fn model(&self) -> TableModel {
        self.records.model()
    }

    closed spec fn well_formed(&self) -> bool {
        &&& self.entities.indexes(entity_keys(self.records.entities.list@))
        &&& self.prefixes.indexes(record_keys(self.records.prefixes.list@))
        &&& self.callsign_exceptions.indexes(record_keys(self.records.exceptions.list@))
        &&& self.invalid_operations.indexes(record_keys(self.records.invalid_operations.list@))
        &&& self.zone_exceptions.indexes(record_keys(self.records.zone_exceptions.list@))
    }

    fn get_entity(&self, adif: Adif, timestamp: &Timestamp) -> (r: Option<&Entity>) {
        let list = &self.records.entities.list;
        let ghost keys = entity_keys(list@);
        let ghost pred = TableModel::entity_pred(adif, *timestamp);
        let h = adif as u64;
        let ghost bucket: Seq<usize> = if self.entities.buckets@.contains_key(h) {
            self.entities.buckets@[h]@
        } else {
            Seq::empty()
        };
        assert(bucket_ok(bucket, keys, h)) by {
            if !self.entities.buckets@.contains_key(h) {
                assert forall|i: int| 0 <= i < keys.len() implies keys[i] != h by {
                    assert(self.entities.buckets@.contains_key(keys[i]));
                }
            }
        }
        assert forall|i: int| 0 <= i < list@.len() && #[trigger] pred(list@[i]) implies keys[i]
            == h by {}
        if let Some(b) = self.entities.bucket(h) {
            let mut j: usize = 0;
            while j < b.len()
                invariant
                    bucket == b@,
                    bucket_ok(bucket, keys, h),
                    keys == entity_keys(list@),
                    list@ == self.model().entities,
                    pred == TableModel::entity_pred(adif, *timestamp),
                    forall|i: int| 0 <= i < list@.len() && #[trigger] pred(list@[i]) ==> keys[i] == h,
                    j <= bucket.len(),
                    forall|k: int| 0 <= k < j ==> !pred(#[trigger] list@[bucket[k] as int]),
                decreases b.len() - j,
            {
                let pos = b[j];
                assert(pos < keys.len());
                let e = &list[pos];
                if e.adif == adif && is_in_time_window(timestamp, e.start, e.end) {
                    proof {
                        lemma_bucket_scan(list@, keys, bucket, h, pred, j as int);
                    }
                    return Some(e);
                }
                j = j + 1;
            }
            proof {
                lemma_bucket_scan(list@, keys, bucket, h, pred, j as int);
            }
            None
        } else {
            proof {
                lemma_bucket_scan(list@, keys, bucket, h, pred, 0);
            }
            None
        }
    }

    fn get_prefix(&self, prefix: &str, timestamp: &Timestamp) -> (r: Option<&Prefix>) {
        bucket_first(&self.records.prefixes.list, &self.prefixes, prefix, timestamp)
    }

    fn get_callsign_exception(&self, callsign: &str, timestamp: &Timestamp) -> (r: Option<
        &CallsignException,
    >) {
        bucket_first(&self.records.exceptions.list, &self.callsign_exceptions, callsign, timestamp)
    }

    fn get_zone_exception(&self, callsign: &str, timestamp: &Timestamp) -> (r: Option<CqZone>) {
        match bucket_first(
            &self.records.zone_exceptions.list,
            &self.zone_exceptions,
            callsign,
            timestamp,
        ) {
            Some(z) => Some(z.zone),
            None => None,
        }
    }

    fn is_invalid_operation(&self, callsign: &str, timestamp: &Timestamp) -> (r: bool) {
        bucket_first(
            &self.records.invalid_operations.list,
            &self.invalid_operations,
            callsign,
            timestamp,
        ).is_some()
    }
}

} // verus!
