//! A set of account addresses.
//!
//! The standard hashed set says nothing to the verifier about keys of a type of this crate:
//! with `HashSet<Pubkey>` not even membership after an insertion can be proved. So the set
//! is kept here, as a list without repetitions.

use crate::pubkey::Pubkey;
use vstd::prelude::*;

verus! {

/// A finite set of account addresses, kept in the order in which they were first inserted.
pub struct PubkeySet {
    keys: Vec<Pubkey>,
}

impl View for PubkeySet {
    type V = Set<Pubkey>;

    closed spec fn view(&self) -> Set<Pubkey> {
        Set::new(|key: Pubkey| self.keys@.contains(key))
    }
}

impl PubkeySet {
    /// No address is held twice.
    pub closed spec fn wf(&self) -> bool {
        forall|i: int, j: int| 0 <= i < j < self.keys.len() ==> self.keys[i] != self.keys[j]
    }

    /// The addresses held, in the order in which they are walked.
    pub closed spec fn order(&self) -> Seq<Pubkey> {
        self.keys@
    }

    /// The order holds the addresses of the set, each once.
    pub proof fn lemma_order(&self)
        requires
            self.wf(),
        ensures
            forall|key: Pubkey| self@.contains(key) <==> self.order().contains(key),
            forall|i: int, j: int|
                0 <= i < j < self.order().len() ==> self.order()[i] != self.order()[j],
            self@.finite(),
            self@.len() == self.order().len(),
    {
        self.keys@.unique_seq_to_set();
        assert(self@ =~= self.keys@.to_set());
    }

    /// The empty set.
    pub fn new() -> (set: PubkeySet)
        ensures
            set.wf(),
            set@ == Set::<Pubkey>::empty(),
            set.order() == Seq::<Pubkey>::empty(),
    {
        let set = PubkeySet { keys: Vec::new() };
        assert(set@ =~= Set::<Pubkey>::empty());
        set
    }

    /// The number of addresses held.
    pub fn len(&self) -> (n: usize)
        ensures
            n == self.order().len(),
    {
        self.keys.len()
    }

    /// The addresses held, in order.
    pub fn as_slice(&self) -> (keys: &[Pubkey])
        ensures
            keys@ == self.order(),
    {
        self.keys.as_slice()
    }

    fn find(&self, key: &Pubkey) -> (at: Option<usize>)
        ensures
            match at {
                Some(i) => i < self.keys.len() && self.keys[i as int] == *key && self@.contains(
                    *key,
                ),
                None => !self@.contains(*key),
            },
    {
        let mut i: usize = 0;
        while i < self.keys.len()
            invariant
                i <= self.keys.len(),
                forall|j: int| 0 <= j < i ==> self.keys[j] != *key,
            decreases self.keys.len() - i,
        {
            if self.keys[i] == *key {
                assert(self.keys@.contains(*key));
                return Some(i);
            }
            i += 1;
        }
        None
    }

    /// Whether the set holds `key`.
    pub fn contains(&self, key: &Pubkey) -> (held: bool)
        ensures
            held == self@.contains(*key),
    {
        self.find(key).is_some()
    }

    /// Adds `key`, and says whether it was new. A new address goes to the end of the order.
    pub fn insert(&mut self, key: Pubkey) -> (added: bool)
        requires
            old(self).wf(),
        ensures
            final(self).wf(),
            final(self)@ == old(self)@.insert(key),
            added == !old(self)@.contains(key),
            final(self).order() == if added {
                old(self).order().push(key)
            } else {
                old(self).order()
            },
    {
        match self.find(&key) {
            Some(_) => {
                assert(self@ =~= old(self)@.insert(key));
                false
            },
            None => {
                self.keys.push(key);
                proof {
                    assert forall|j: int| 0 <= j < old(self).keys.len() implies old(
                        self,
                    ).keys[j] != key by {
                        if old(self).keys[j] == key {
                            assert(old(self).keys@.contains(key));
                        }
                    }
                    assert(self@ =~= old(self)@.insert(key)) by {
                        assert forall|k: Pubkey| self.keys@.contains(k) <==> (old(
                            self,
                        ).keys@.contains(k) || k == key) by {
                            if self.keys@.contains(k) {
                                let j = choose|j: int| 0 <= j < self.keys@.len() && self.keys@[j] == k;
                                if j < old(self).keys@.len() {
                                    assert(old(self).keys@[j] == k);
                                }
                            }
                            if old(self).keys@.contains(k) {
                                let j = choose|j: int|
                                    0 <= j < old(self).keys@.len() && old(self).keys@[j] == k;
                                assert(self.keys@[j] == k);
                            }
                            if k == key {
                                assert(self.keys@[old(self).keys@.len() as int] == k);
                            }
                        }
                    }
                }
                true
            },
        }
    }

    /// Takes `key` out, and says whether it was there. The others keep their order.
    pub fn remove(&mut self, key: &Pubkey) -> (removed: bool)
        requires
            old(self).wf(),
        ensures
            final(self).wf(),
            final(self)@ == old(self)@.remove(*key),
            removed == old(self)@.contains(*key),
            final(self).order() == if removed {
                old(self).order().remove(old(self).order().index_of(*key))
            } else {
                old(self).order()
            },
    {
        match self.find(key) {
            Some(i) => {
                let _ = self.keys.remove(i);
                proof {
                    let at = old(self).keys@.index_of(*key);
                    assert(old(self).keys@.contains(*key));
                    if at < i {
                        assert(old(self).keys[at] != old(self).keys[i as int]);
                    } else if i < at {
                        assert(old(self).keys[i as int] != old(self).keys[at]);
                    }
                    assert forall|a: int, b: int| 0 <= a < b < self.keys.len() implies self.keys[a]
                        != self.keys[b] by {
                        let a0 = if a < i { a } else { a + 1 };
                        let b0 = if b < i { b } else { b + 1 };
                        assert(old(self).keys[a0] != old(self).keys[b0]);
                    }
                    assert(self@ =~= old(self)@.remove(*key)) by {
                        assert forall|k: Pubkey| self.keys@.contains(k) <==> (old(
                            self,
                        ).keys@.contains(k) && k != *key) by {
                            if self.keys@.contains(k) {
                                let j = choose|j: int| 0 <= j < self.keys@.len() && self.keys@[j] == k;
                                let j0 = if j < i { j } else { j + 1 };
                                assert(old(self).keys@[j0] == k);
                                if j0 < i {
                                    assert(old(self).keys[j0] != old(self).keys[i as int]);
                                } else {
                                    assert(old(self).keys[i as int] != old(self).keys[j0]);
                                }
                            }
                            if old(self).keys@.contains(k) && k != *key {
                                let j0 = choose|j: int|
                                    0 <= j < old(self).keys@.len() && old(self).keys@[j] == k;
                                let j = if j0 < i { j0 } else { j0 - 1 };
                                assert(self.keys@[j] == k);
                            }
                        }
                    }
                }
                true
            },
            None => {
                assert(self@ =~= old(self)@.remove(*key));
                false
            },
        }
    }
}

} // verus!
