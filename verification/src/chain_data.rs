//! The mirror of the ledger: it takes in account writes, slot reports and snapshots, in
//! whatever order they arrive, and answers for each account with one version of it.

use crate::account::{
    Account, AccountData, AccountDataView, AccountSnapshot, AccountWriteView,
    Message, SlotData, SlotStatus,
};
use crate::ledger::{
    ascending, insert_position, insert_version, is_insert_position, lemma_insert_position, Ledger,
};
use crate::pubkey::Pubkey;
use crate::pubkey_map::PubkeyMap;
use std::collections::HashMap;
use vstd::prelude::*;

verus! {

broadcast use vstd::std_specs::hash::group_hash_axioms;

/// The versions as values.
pub open spec fn version_views(versions: Seq<AccountData>) -> Seq<AccountDataView> {
    Seq::new(versions.len(), |i: int| versions[i]@)
}

/// The mirror holds no version of the account.
#[derive(Clone, Copy, Debug, PartialEq, Eq)]
pub struct NotFound {
    pub pubkey: Pubkey,
}

/// The mirror.
///
/// Of each account it retains the versions that may still be the one to answer with, in
/// ascending order of slot. Of each slot it keeps what was reported of it, for as long as
/// the mirror lives: a slot's status decides over every version of that slot, those still to
/// come too.
pub struct ChainData {
    slots: HashMap<u64, SlotData>,
    accounts: PubkeyMap<Vec<AccountData>>,
}

impl View for ChainData {
    type V = Ledger;

    closed spec fn view(&self) -> Ledger {
        Ledger {
            slots: self.slots@,
            writes: Map::new(
                |key: Pubkey| self.accounts@.contains_key(key),
                |key: Pubkey| version_views(self.accounts@[key]@),
            ),
        }
    }
}

impl ChainData {
    /// The table of accounts is in order.
    pub closed spec fn accounts_wf(&self) -> bool {
        self.accounts.wf()
    }

    /// The mirror is in order: its table of accounts is, and each account's versions stand in
    /// ascending order of slot.
    pub open spec fn wf(&self) -> bool {
        &&& self.accounts_wf()
        &&& self@.wf()
    }

    /// A mirror that has seen nothing.
    pub fn new() -> (chain_data: ChainData)
        ensures
            chain_data.wf(),
            chain_data@ == Ledger::empty(),
    {
        let chain_data = ChainData { slots: HashMap::new(), accounts: PubkeyMap::new() };
        assert(chain_data@.writes =~= Map::empty());
        chain_data
    }

    /// Whether a slot is `Confirmed` or `Rooted`.
    fn is_settled(&self, slot: u64) -> (settled: bool)
        ensures
            settled == self@.settled(slot),
    {
        match self.slots.get(&slot) {
            Some(data) => data.status.is_settled(),
            None => false,
        }
    }

    /// What was reported of a slot, if anything was.
    pub fn slot(&self, slot: u64) -> (data: Option<SlotData>)
        ensures
            data is Some <==> self@.slots.contains_key(slot),
            data matches Some(d) ==> d == self@.slots[slot],
    {
        match self.slots.get(&slot) {
            Some(data) => Some(*data),
            None => None,
        }
    }

    /// Takes in one version of an account.
    ///
    /// It joins the versions retained of the account, in its place by slot. Where a version
    /// of the same slot is held, the one with the higher write version stays.
    pub fn update_account(&mut self, pubkey: Pubkey, account: AccountData)
        requires
            old(self).wf(),
        ensures
            final(self).wf(),
            final(self)@ == old(self)@.with_write(
                AccountWriteView {
                    pubkey,
                    slot: account.slot,
                    write_version: account.write_version,
                    account: account.account@,
                },
            ),
    {
        let ghost write = AccountWriteView {
            pubkey,
            slot: account.slot,
            write_version: account.write_version,
            account: account.account@,
        };
        let ghost held = self@.candidates(pubkey);
        proof {
            assert(write.version() == account@);
            if self@.writes.contains_key(pubkey) {
                assert(ascending(self@.writes[pubkey]));
            }
            lemma_insert_position(held, account.slot);
        }
        let mut versions = match self.accounts.insert(pubkey, Vec::new()) {
            Some(versions) => versions,
            None => Vec::new(),
        };
        let ghost before = versions@;
        proof {
            assert(held =~= version_views(before));
        }
        let mut at: usize = versions.len();
        while at > 0 && versions[at - 1].slot >= account.slot
            invariant
                at <= versions.len(),
                versions@ == before,
                forall|j: int| at <= j < versions.len() ==> versions[j].slot >= account.slot,
            decreases at,
        {
            at -= 1;
        }
        proof {
            assert forall|j: int| 0 <= j < at implies held[j].slot < account.slot by {
                if j < at - 1 {
                    assert(held[j].slot < held[at - 1].slot);
                }
            }
            assert forall|j: int| at <= j < held.len() implies held[j].slot >= account.slot by {
                assert(versions[j].slot >= account.slot);
            }
            assert(is_insert_position(held, account.slot, at as int));
        }
        if at < versions.len() && versions[at].slot == account.slot {
            if versions[at].write_version < account.write_version {
                versions.set(at, account);
            }
        } else {
            versions.insert(at, account);
        }
        proof {
            assert(version_views(versions@) =~= insert_version(held, write.version()));
        }
        let _ = self.accounts.insert(pubkey, versions);
        proof {
            assert(self.accounts@ =~= old(self).accounts@.insert(pubkey, versions));
            assert(self@.writes =~= old(self)@.with_write(write).writes);
            old(self)@.lemma_with_write_wf(write);
        }
    }

    /// The version of an account to answer with, if any is retained: the one of the latest
    /// slot that is `Confirmed` or `Rooted`, and where no such slot holds a version, the one
    /// of the latest slot.
    pub fn lookup(&self, pubkey: &Pubkey) -> (version: Option<&AccountData>)
        requires
            self.wf(),
        ensures
            match version {
                Some(v) => self@.lookup(*pubkey) == Some(v@) && self@.authoritative(*pubkey, v@),
                None => self@.lookup(*pubkey) is None && self@.candidates(*pubkey).len() == 0,
            },
    {
        proof {
            self@.lemma_lookup(*pubkey);
        }
        match self.accounts.get(pubkey) {
            None => None,
            Some(versions) => {
                let ghost held = self@.candidates(*pubkey);
                assert(held == version_views(versions@));
                assert(ascending(self@.writes[*pubkey]));
                if versions.len() == 0 {
                    return None;
                }
                let mut at: usize = versions.len();
                while at > 0
                    invariant
                        at <= versions.len(),
                        held == version_views(versions@),
                        held == self@.candidates(*pubkey),
                        ascending(held),
                        forall|j: int|
                            at <= j < versions.len() ==> !self@.settled(#[trigger] versions[j].slot),
                    decreases at,
                {
                    if self.is_settled(versions[at - 1].slot) {
                        let found = &versions[at - 1];
                        proof {
                            assert(held[at - 1] == found@);
                            assert forall|c: AccountDataView| #[trigger]
                                held.contains(c) implies !self@.outranks(c, found@) by {
                                let j = choose|j: int| 0 <= j < held.len() && held[j] == c;
                                assert(c.slot == versions[j].slot);
                                if j < at - 1 {
                                    assert(held[j].slot < held[at - 1].slot);
                                }
                            }
                            assert(self@.authoritative(*pubkey, found@));
                        }
                        return Some(found);
                    }
                    at -= 1;
                }
                let last = &versions[versions.len() - 1];
                proof {
                    assert(held[held.len() - 1] == last@);
                    assert forall|c: AccountDataView| #[trigger]
                        held.contains(c) implies !self@.outranks(c, last@) by {
                        let j = choose|j: int| 0 <= j < held.len() && held[j] == c;
                        assert(c.slot == versions[j].slot);
                        assert(!self@.settled(versions[j].slot));
                        assert(!self@.settled(versions[versions.len() - 1].slot));
                        if j < held.len() - 1 {
                            assert(held[j].slot < held[held.len() - 1].slot);
                        }
                    }
                    assert(self@.authoritative(*pubkey, last@));
                }
                Some(last)
            },
        }
    }

    /// The state of an account according to the version to answer with.
    pub fn account(&self, pubkey: &Pubkey) -> (account: Result<&Account, NotFound>)
        requires
            self.wf(),
        ensures
            match account {
                Ok(a) => self@.lookup(*pubkey) matches Some(v) && v.account == a@,
                Err(e) => self@.lookup(*pubkey) is None && e.pubkey == *pubkey,
            },
    {
        match self.lookup(pubkey) {
            Some(version) => Ok(&version.account),
            None => Err(NotFound { pubkey: *pubkey }),
        }
    }

    /// Drops, of each account, the versions that can no longer be the one to answer with:
    /// those before the latest version in a settled slot.
    fn prune(&mut self)
        requires
            old(self).wf(),
        ensures
            final(self).wf(),
            final(self)@ == old(self)@.prune(),
    {
        let n = self.accounts.len();
        let ghost ledger = self@;
        let ghost keys = self.accounts.spec_keys();
        proof {
            self.accounts.lemma_keys();
        }
        let mut i: usize = 0;
        while i < n
            invariant
                i <= n,
                old(self).wf(),
                ledger == old(self)@,
                self.accounts.wf(),
                self.accounts.spec_keys() == keys,
                old(self).accounts.spec_keys() == keys,
                keys.len() == n,
                self.slots@ == old(self).slots@,
                forall|key: Pubkey|
                    self.accounts@.contains_key(key) <==> old(self).accounts@.contains_key(key),
                forall|j: int|
                    0 <= j < i ==> version_views(self.accounts@[#[trigger] keys[j]]@)
                        == ledger.pruned(version_views(old(self).accounts@[keys[j]]@)),
                forall|j: int|
                    i <= j < n ==> self.accounts@[#[trigger] keys[j]] == old(self).accounts@[keys[j]],
            decreases n - i,
        {
            let key = self.accounts.key_at(i);
            proof {
                self.accounts.lemma_keys();
                old(self).accounts.lemma_keys();
                assert(keys[i as int] == key);
                assert(self.accounts@.contains_key(key));
            }
            let ghost walked = self.accounts@;
            let mut versions = match self.accounts.insert(key, Vec::new()) {
                Some(versions) => versions,
                None => Vec::new(),
            };
            let ghost held = version_views(versions@);
            proof {
                assert(versions == old(self).accounts@[key]);
                assert(ledger.writes.contains_key(key));
                assert(ledger.writes[key] == held);
                assert(ascending(held));
            }
            let mut at: usize = versions.len();
            let mut found = false;
            while at > 0 && !found
                invariant
                    at <= versions.len(),
                    held == version_views(versions@),
                    self.slots@ == ledger.slots,
                    forall|j: int| at <= j < held.len() ==> !ledger.settled(#[trigger] held[j].slot),
                    found ==> at > 0 && ledger.settled(held[at - 1].slot),
                decreases at + (if found { 0int } else { 1int }),
            {
                let settled = self.is_settled(versions[at - 1].slot);
                proof {
                    assert(self@.settled(versions[at - 1].slot) == ledger.settled(
                        held[at - 1].slot,
                    ));
                }
                if settled {
                    found = true;
                } else {
                    at -= 1;
                }
            }
            proof {
                if found {
                    assert(ledger.is_floor(held, at - 1));
                    let chosen = choose|p: int| ledger.is_floor(held, p);
                    if chosen < at - 1 {
                        assert(!ledger.settled(held[at - 1].slot));
                    } else if at - 1 < chosen {
                        assert(!ledger.settled(held[chosen].slot));
                    }
                } else {
                    assert forall|p: int| !ledger.is_floor(held, p) by {
                        if 0 <= p < held.len() {
                            assert(!ledger.settled(held[p].slot));
                        }
                    }
                }
            }
            if found && at > 1 {
                let kept = versions.split_off(at - 1);
                versions = kept;
            }
            proof {
                assert(version_views(versions@) =~= ledger.pruned(held));
            }
            let _ = self.accounts.insert(key, versions);
            proof {
                assert(self.accounts@ =~= walked.insert(key, versions));
                assert forall|j: int| 0 <= j < i + 1 implies version_views(
                    self.accounts@[#[trigger] keys[j]]@,
                ) == ledger.pruned(version_views(old(self).accounts@[keys[j]]@)) by {
                    if j < i {
                        assert(keys[j] != keys[i as int]);
                    }
                }
                assert forall|j: int| i + 1 <= j < n implies self.accounts@[#[trigger] keys[j]]
                    == old(self).accounts@[keys[j]] by {
                    assert(keys[i as int] != keys[j]);
                }
            }
            i += 1;
        }
        proof {
            old(self).accounts.lemma_keys();
            assert(self@.writes =~= ledger.prune().writes) by {
                assert forall|key: Pubkey| self.accounts@.contains_key(key) implies version_views(
                    self.accounts@[key]@,
                ) == ledger.pruned(ledger.writes[key]) by {
                    assert(keys.contains(key));
                    let j = choose|j: int| 0 <= j < keys.len() && keys[j] == key;
                    assert(keys[j] == key);
                }
            }
            ledger.lemma_prune_wf();
        }
    }

    /// Takes in a report on a slot. The slot's status only advances, and its parent, once
    /// known, stays. A report of `Rooted` is the occasion to prune.
    pub fn update_slot(&mut self, new_slot: SlotData)
        requires
            old(self).wf(),
        ensures
            final(self).wf(),
            final(self)@ == old(self)@.with_slot(new_slot),
    {
        let merged = match self.slots.get(&new_slot.slot) {
            Some(known) => SlotData {
                slot: new_slot.slot,
                parent: if known.parent.is_some() {
                    known.parent
                } else {
                    new_slot.parent
                },
                status: known.status.later(new_slot.status),
            },
            None => new_slot,
        };
        self.slots.insert(new_slot.slot, merged);
        proof {
            assert(self@.writes =~= old(self)@.writes);
            assert(self@.wf());
        }
        if new_slot.status == SlotStatus::Rooted {
            self.prune();
        }
    }

    /// Takes in a snapshot: each of its accounts as a write at the snapshot's slot, with
    /// write version 0, first to last.
    pub fn update_from_snapshot(&mut self, snapshot: AccountSnapshot)
        requires
            old(self).wf(),
        ensures
            final(self).wf(),
            final(self)@ == old(self)@.with_writes(snapshot.writes()),
    {
        let ghost writes = snapshot.writes();
        let ghost all = snapshot.accounts@;
        let slot = snapshot.slot;
        for entry in it: snapshot.accounts
            invariant
                self.wf(),
                it.seq() == all,
                writes.len() == all.len(),
                forall|j: int| 0 <= j < all.len() ==> writes[j] == all[j].as_write(slot),
                self@ == old(self)@.with_writes(writes.take(it.index() as int)),
        {
            proof {
                let done = it.index() as int;
                assert(entry == all[done]);
                assert(writes.take(done + 1).drop_last() =~= writes.take(done));
                assert(writes.take(done + 1).last() == writes[done]);
            }
            self.update_account(
                entry.pubkey,
                AccountData { slot, write_version: 0, account: entry.account },
            );
        }
        proof {
            assert(writes.take(all.len() as int) =~= writes);
        }
    }

    /// Takes in a message of the live stream: an account write or a report on a slot. Any
    /// other message changes nothing.
    pub fn update_from_websocket(&mut self, message: Message)
        requires
            old(self).wf(),
        ensures
            final(self).wf(),
            final(self)@ == old(self)@.with_message(message@),
    {
        match message {
            Message::Account(write) => {
                self.update_account(
                    write.pubkey,
                    AccountData {
                        slot: write.slot,
                        write_version: write.write_version,
                        account: write.account,
                    },
                );
            },
            Message::Slot(update) => {
                self.update_slot(update);
            },
            Message::Other => {},
        }
    }
}

} // verus!
