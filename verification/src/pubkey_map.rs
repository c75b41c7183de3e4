//! A map keyed by account address.
//!
//! The standard hashed map says nothing to the verifier about keys of a type of this crate,
//! but it does about integer keys. So the map here is a standard map from the first eight
//! bytes of an address to the few entries that share them.

use crate::pubkey::Pubkey;
use std::collections::HashMap;
use vstd::bytes::{spec_u64_from_le_bytes, u64_from_le_bytes};
use vstd::prelude::*;

verus! {

broadcast use vstd::std_specs::hash::group_hash_axioms;

/// One address with the value held for it.
struct Entry<V> {
    key: Pubkey,
    value: V,
}

/// A finite map from account addresses to values.
///
/// The addresses are hashed by their first eight bytes, which are as good as random. They
/// are also kept in the order in which they came, so that a caller can walk the whole map.
pub struct PubkeyMap<V> {
    buckets: HashMap<u64, Vec<Entry<V>>>,
    keys: Vec<Pubkey>,
}

/// The bucket that an address belongs to: its first eight bytes as a number.
pub open spec fn spec_bucket_of(key: Pubkey) -> u64 {
    spec_u64_from_le_bytes(key.bytes@.subrange(0, 8))
}

/// The bucket that an address belongs to.
fn bucket_of(key: &Pubkey) -> (bucket: u64)
    ensures
        bucket == spec_bucket_of(*key),
{
    u64_from_le_bytes(vstd::slice::slice_subrange(key.bytes.as_slice(), 0, 8))
}

/// Whether a bucket holds `key`.
spec fn bucket_has<V>(bucket: Seq<Entry<V>>, key: Pubkey) -> bool {
    exists|j: int| 0 <= j < bucket.len() && (#[trigger] bucket[j]).key == key
}

/// Where a bucket holds `key`.
spec fn bucket_position<V>(bucket: Seq<Entry<V>>, key: Pubkey) -> int {
    choose|j: int| 0 <= j < bucket.len() && (#[trigger] bucket[j]).key == key
}

/// A bucket holds addresses of its own number only, and none twice.
spec fn bucket_wf<V>(bucket: Seq<Entry<V>>, number: u64) -> bool {
    &&& forall|j: int| 0 <= j < bucket.len() ==> spec_bucket_of((#[trigger] bucket[j]).key) == number
    &&& forall|i: int, j: int|
        0 <= i < j < bucket.len() ==> (#[trigger] bucket[i]).key != (#[trigger] bucket[j]).key
}

impl<V> PubkeyMap<V> {
    /// The bucket of `key` as it stands; empty where there is none.
    spec fn bucket(&self, key: Pubkey) -> Seq<Entry<V>> {
        if self.buckets@.contains_key(spec_bucket_of(key)) {
            self.buckets@[spec_bucket_of(key)]@
        } else {
            Seq::empty()
        }
    }

    /// The map is in order: every bucket holds its own addresses only, each once, and the
    /// addresses in order of arrival are those of the map, each once.
    pub closed spec fn wf(&self) -> bool {
        &&& forall|number: u64| #[trigger]
            self.buckets@.contains_key(number) ==> bucket_wf(self.buckets@[number]@, number)
        &&& forall|i: int, j: int| 0 <= i < j < self.keys.len() ==> self.keys[i] != self.keys[j]
        &&& forall|i: int|
            0 <= i < self.keys.len() ==> bucket_has(self.bucket(#[trigger] self.keys[i]), self.keys[i])
        &&& forall|key: Pubkey| #[trigger]
            bucket_has(self.bucket(key), key) ==> self.keys@.contains(key)
    }

    /// The addresses held, in order of arrival.
    pub closed spec fn spec_keys(&self) -> Seq<Pubkey> {
        self.keys@
    }

    /// The map held.
    pub closed spec fn view(&self) -> Map<Pubkey, V> {
        Map::new(
            |key: Pubkey| bucket_has(self.bucket(key), key),
            |key: Pubkey| self.bucket(key)[bucket_position(self.bucket(key), key)].value,
        )
    }

    /// The addresses in order of arrival are those that the map holds, each once.
    pub proof fn lemma_keys(&self)
        requires
            self.wf(),
        ensures
            forall|key: Pubkey| self@.contains_key(key) <==> self.spec_keys().contains(key),
            forall|i: int|
                0 <= i < self.spec_keys().len() ==> self@.contains_key(#[trigger] self.spec_keys()[i]),
            forall|i: int, j: int|
                0 <= i < j < self.spec_keys().len() ==> self.spec_keys()[i] != self.spec_keys()[j],
    {
        assert forall|key: Pubkey| self.spec_keys().contains(key) implies self@.contains_key(
            key,
        ) by {
            let i = choose|i: int| 0 <= i < self.keys@.len() && self.keys@[i] == key;
            assert(bucket_has(self.bucket(self.keys[i]), self.keys[i]));
        }
    }

    /// The empty map.
    pub fn new() -> (map: Self)
        ensures
            map.wf(),
            map@ == Map::<Pubkey, V>::empty(),
            map.spec_keys() == Seq::<Pubkey>::empty(),
    {
        let map = PubkeyMap { buckets: HashMap::new(), keys: Vec::new() };
        proof {
            assert forall|key: Pubkey| !bucket_has(map.bucket(key), key) by {
                assert(map.bucket(key) =~= Seq::empty());
            }
            assert(map@ =~= Map::<Pubkey, V>::empty());
        }
        map
    }

    /// The number of addresses held.
    pub fn len(&self) -> (n: usize)
        ensures
            n == self.spec_keys().len(),
    {
        self.keys.len()
    }

    /// The address that came as number `i`.
    pub fn key_at(&self, i: usize) -> (key: Pubkey)
        requires
            i < self.spec_keys().len(),
        ensures
            key == self.spec_keys()[i as int],
    {
        self.keys[i]
    }

    /// Where a bucket holds `key`, if it does.
    fn find_in(bucket: &Vec<Entry<V>>, key: &Pubkey) -> (at: Option<usize>)
        ensures
            match at {
                Some(j) => j < bucket@.len() && bucket@[j as int].key == *key,
                None => !bucket_has(bucket@, *key),
            },
    {
        let mut j: usize = 0;
        while j < bucket.len()
            invariant
                j <= bucket.len(),
                forall|i: int| 0 <= i < j ==> (#[trigger] bucket@[i]).key != *key,
            decreases bucket.len() - j,
        {
            if bucket[j].key == *key {
                return Some(j);
            }
            j += 1;
        }
        None
    }

    /// The value held for `key`.
    pub fn get(&self, key: &Pubkey) -> (value: Option<&V>)
        requires
            self.wf(),
        ensures
            match value {
                Some(v) => self@.contains_key(*key) && *v == self@[*key],
                None => !self@.contains_key(*key),
            },
    {
        let number = bucket_of(key);
        match self.buckets.get(&number) {
            None => {
                assert(self.bucket(*key) =~= Seq::empty());
                None
            },
            Some(bucket) => {
                assert(self.bucket(*key) == bucket@);
                match Self::find_in(bucket, key) {
                    None => None,
                    Some(j) => {
                        proof {
                            let p = bucket_position(bucket@, *key);
                            assert(bucket_wf(bucket@, number));
                            if p < j {
                                assert(bucket@[p].key != bucket@[j as int].key);
                            } else if j < p {
                                assert(bucket@[j as int].key != bucket@[p].key);
                            }
                        }
                        Some(&bucket[j].value)
                    },
                }
            },
        }
    }

    /// Whether the map holds `key`.
    pub fn contains_key(&self, key: &Pubkey) -> (held: bool)
        requires
            self.wf(),
        ensures
            held == self@.contains_key(*key),
    {
        self.get(key).is_some()
    }

    /// Holds `value` for `key` from now on, and hands out what was held for it. A new address
    /// goes to the end of the order; one that was held keeps its place.
    pub fn insert(&mut self, key: Pubkey, value: V) -> (replaced: Option<V>)
        requires
            old(self).wf(),
        ensures
            final(self).wf(),
            final(self)@ == old(self)@.insert(key, value),
            match replaced {
                Some(v) => old(self)@.contains_key(key) && v == old(self)@[key],
                None => !old(self)@.contains_key(key),
            },
            final(self).spec_keys() == if old(self)@.contains_key(key) {
                old(self).spec_keys()
            } else {
                old(self).spec_keys().push(key)
            },
    {
        let number = bucket_of(&key);
        let mut bucket = match self.buckets.remove(&number) {
            Some(bucket) => bucket,
            None => Vec::new(),
        };
        let ghost before = bucket@;
        proof {
            assert(before =~= old(self).bucket(key));
            assert(bucket_wf(before, number)) by {
                if old(self).buckets@.contains_key(number) {
                    assert(bucket_wf(old(self).buckets@[number]@, number));
                }
            }
        }
        let found = Self::find_in(&bucket, &key);
        let replaced = match found {
            Some(j) => {
                bucket.push(Entry { key, value });
                let entry = bucket.swap_remove(j);
                proof {
                    assert(bucket@ =~= before.update(j as int, Entry { key, value }));
                    let p = bucket_position(before, key);
                    if p < j {
                        assert(before[p].key != before[j as int].key);
                    } else if j < p {
                        assert(before[j as int].key != before[p].key);
                    }
                }
                Some(entry.value)
            },
            None => {
                bucket.push(Entry { key, value });
                self.keys.push(key);
                None
            },
        };
        let ghost after = bucket@;
        self.buckets.insert(number, bucket);
        proof {
            assert(self.buckets@ =~= old(self).buckets@.insert(number, bucket));
            assert(bucket_wf(after, number)) by {
                assert forall|i: int, j: int| 0 <= i < j < after.len() implies (
                #[trigger] after[i]).key != (#[trigger] after[j]).key by {
                    if found is Some {
                        assert(after[i].key == before[i].key);
                        assert(after[j].key == before[j].key);
                    } else if j < before.len() {
                        assert(after[i] == before[i]);
                        assert(after[j] == before[j]);
                    } else {
                        assert(after[i] == before[i]);
                    }
                }
                assert forall|j: int| 0 <= j < after.len() implies spec_bucket_of(
                    (#[trigger] after[j]).key,
                ) == number by {
                    if j < before.len() {
                        assert(after[j].key == before[j].key);
                    }
                }
            }
            assert forall|k: Pubkey| self.bucket(k) == (if spec_bucket_of(k) == number {
                after
            } else {
                old(self).bucket(k)
            }) by {}
            assert forall|k: Pubkey| bucket_has(self.bucket(k), k) <==> (bucket_has(
                old(self).bucket(k),
                k,
            ) || k == key) by {
                if spec_bucket_of(k) == number {
                    assert(old(self).bucket(k) == before);
                    if bucket_has(after, k) {
                        let j = bucket_position(after, k);
                        if j < before.len() && k != key {
                            assert(before[j].key == k);
                        }
                    }
                    if bucket_has(before, k) {
                        let j = bucket_position(before, k);
                        assert(after[j].key == k);
                    }
                    if k == key {
                        if found is Some {
                            assert(after[found->0 as int].key == key);
                        } else {
                            assert(after[before.len() as int].key == key);
                        }
                    }
                }
            }
            assert(self.wf()) by {
                assert forall|n: u64| #[trigger] self.buckets@.contains_key(n) implies bucket_wf(
                    self.buckets@[n]@,
                    n,
                ) by {
                    if n != number {
                        assert(old(self).buckets@.contains_key(n));
                    }
                }
                assert forall|i: int, j: int| 0 <= i < j < self.keys.len() implies self.keys[i]
                    != self.keys[j] by {
                    if found is None && j == old(self).keys.len() {
                        assert(bucket_has(old(self).bucket(old(self).keys[i]), old(self).keys[i]));
                    }
                }
                assert forall|i: int| 0 <= i < self.keys.len() implies bucket_has(
                    self.bucket(#[trigger] self.keys[i]),
                    self.keys[i],
                ) by {
                    if i < old(self).keys.len() {
                        assert(bucket_has(old(self).bucket(old(self).keys[i]), old(self).keys[i]));
                    }
                }
                assert forall|k: Pubkey| #[trigger]
                    bucket_has(self.bucket(k), k) implies self.keys@.contains(k) by {
                    if bucket_has(old(self).bucket(k), k) {
                        let i = choose|i: int|
                            0 <= i < old(self).keys@.len() && old(self).keys@[i] == k;
                        assert(self.keys@[i] == k);
                    } else {
                        assert(found is None);
                        assert(self.keys@[old(self).keys@.len() as int] == k);
                    }
                }
            }
            assert(self@ =~= old(self)@.insert(key, value)) by {
                assert forall|k: Pubkey| bucket_has(self.bucket(k), k) && k != key implies self.bucket(
                    k,
                )[bucket_position(self.bucket(k), k)].value == old(self).bucket(
                    k,
                )[bucket_position(old(self).bucket(k), k)].value by {
                    if spec_bucket_of(k) == number {
                        let j = bucket_position(after, k);
                        let j0 = bucket_position(before, k);
                        assert(after[j].key == k);
                        assert(before[j0].key == k);
                        assert(after[j0].key == k);
                        if j < j0 {
                            assert(after[j].key != after[j0].key);
                        } else if j0 < j {
                            assert(after[j0].key != after[j].key);
                        }
                    }
                }
                let at = bucket_position(after, key);
                let put = if found is Some {
                    found->0 as int
                } else {
                    before.len() as int
                };
                assert(after[put].key == key);
                if at < put {
                    assert(after[at].key != after[put].key);
                } else if put < at {
                    assert(after[put].key != after[at].key);
                }
            }
        }
        replaced
    }
}

} // verus!
