//! The mirror of the ledger as a mathematical object: what it holds, how each message
//! changes it, and which version of an account it answers with.

use crate::account::{
    AccountDataView, AccountSnapshot, AccountWriteView, MessageView, SlotData, SlotStatus,
};
use crate::pubkey::Pubkey;
use vstd::prelude::*;

verus! {

/// What a mirror holds: what was reported of each slot, and the versions retained of each
/// account, in ascending order of slot.
pub struct Ledger {
    pub slots: Map<u64, SlotData>,
    pub writes: Map<Pubkey, Seq<AccountDataView>>,
}

/// The versions stand in strictly ascending order of slot; so no two share a slot.
pub open spec fn ascending(versions: Seq<AccountDataView>) -> bool {
    forall|i: int, j: int| 0 <= i < j < versions.len() ==> versions[i].slot < versions[j].slot
}

/// `p` is where a version of `slot` belongs among `versions`: after every version of an
/// earlier slot, and before every other.
pub open spec fn is_insert_position(versions: Seq<AccountDataView>, slot: u64, p: int) -> bool {
    &&& 0 <= p <= versions.len()
    &&& forall|i: int| 0 <= i < p ==> versions[i].slot < slot
    &&& forall|i: int| p <= i < versions.len() ==> versions[i].slot >= slot
}

/// Where a version of `slot` belongs among `versions`.
pub open spec fn insert_position(versions: Seq<AccountDataView>, slot: u64) -> int {
    choose|p: int| is_insert_position(versions, slot, p)
}

/// The versions retained once `version` has been offered. It takes its place by slot. Where
/// a version of the same slot is held already, the one with the higher write version stays,
/// and the one held stays if they are equal.
pub open spec fn insert_version(
    versions: Seq<AccountDataView>,
    version: AccountDataView,
) -> Seq<AccountDataView> {
    let p = insert_position(versions, version.slot);
    if p < versions.len() && versions[p].slot == version.slot {
        if versions[p].write_version < version.write_version {
            versions.update(p, version)
        } else {
            versions
        }
    } else {
        versions.insert(p, version)
    }
}

impl Ledger {
    /// The mirror that has seen nothing.
    pub open spec fn empty() -> Ledger {
        Ledger { slots: Map::empty(), writes: Map::empty() }
    }

    /// Every account's versions are in ascending order of slot.
    pub open spec fn wf(self) -> bool {
        forall|key: Pubkey| self.writes.contains_key(key) ==> ascending(#[trigger] self.writes[key])
    }

    /// The status of a slot: the one reported, and `Processed` for a slot never reported.
    pub open spec fn status(self, slot: u64) -> SlotStatus {
        if self.slots.contains_key(slot) {
            self.slots[slot].status
        } else {
            SlotStatus::Processed
        }
    }

    /// Whether a slot is `Confirmed` or `Rooted`.
    pub open spec fn settled(self, slot: u64) -> bool {
        self.status(slot).is_settled()
    }

    /// The versions retained of an account; none for an account never seen.
    pub open spec fn candidates(self, key: Pubkey) -> Seq<AccountDataView> {
        if self.writes.contains_key(key) {
            self.writes[key]
        } else {
            Seq::empty()
        }
    }

    /// Whether `a` is preferred to `b`: a version in a settled slot to one in an unsettled
    /// slot; between two of the same kind the one of the later slot; and in one slot the one
    /// with the higher write version.
    pub open spec fn outranks(self, a: AccountDataView, b: AccountDataView) -> bool {
        if self.settled(a.slot) != self.settled(b.slot) {
            self.settled(a.slot)
        } else if a.slot != b.slot {
            a.slot > b.slot
        } else {
            a.write_version > b.write_version
        }
    }

    /// Whether `version` is the one to answer with for `key`: it is retained, and no retained
    /// version of that account is preferred to it.
    pub open spec fn authoritative(self, key: Pubkey, version: AccountDataView) -> bool {
        &&& self.candidates(key).contains(version)
        &&& forall|c: AccountDataView| #[trigger]
            self.candidates(key).contains(c) ==> !self.outranks(c, version)
    }

    /// The version to answer with for `key`, if any is retained.
    pub open spec fn lookup(self, key: Pubkey) -> Option<AccountDataView> {
        if exists|v: AccountDataView| self.authoritative(key, v) {
            Some(choose|v: AccountDataView| self.authoritative(key, v))
        } else {
            None
        }
    }

    /// The mirror after one write.
    pub open spec fn with_write(self, write: AccountWriteView) -> Ledger {
        Ledger {
            slots: self.slots,
            writes: self.writes.insert(
                write.pubkey,
                insert_version(self.candidates(write.pubkey), write.version()),
            ),
        }
    }

    /// The mirror after a sequence of writes, first to last.
    pub open spec fn with_writes(self, writes: Seq<AccountWriteView>) -> Ledger
        decreases writes.len(),
    {
        if writes.len() == 0 {
            self
        } else {
            self.with_writes(writes.drop_last()).with_write(writes.last())
        }
    }

    /// What is known of a slot once `update` has been reported. A status only advances, and a
    /// parent once known stays.
    pub open spec fn merged_slot(self, update: SlotData) -> SlotData {
        if self.slots.contains_key(update.slot) {
            let known = self.slots[update.slot];
            SlotData {
                slot: update.slot,
                parent: if known.parent is Some {
                    known.parent
                } else {
                    update.parent
                },
                status: known.status.later(update.status),
            }
        } else {
            update
        }
    }

    /// `p` is the place of the latest version in a settled slot.
    pub open spec fn is_floor(self, versions: Seq<AccountDataView>, p: int) -> bool {
        &&& 0 <= p < versions.len()
        &&& self.settled(versions[p].slot)
        &&& forall|i: int| p < i < versions.len() ==> !self.settled(#[trigger] versions[i].slot)
    }

    /// The versions worth keeping: the latest in a settled slot and all that follow it.
    /// Where no slot is settled, all.
    pub open spec fn pruned(self, versions: Seq<AccountDataView>) -> Seq<AccountDataView> {
        if exists|p: int| self.is_floor(versions, p) {
            versions.subrange(choose|p: int| self.is_floor(versions, p), versions.len() as int)
        } else {
            versions
        }
    }

    /// The mirror with every account's versions pruned.
    pub open spec fn prune(self) -> Ledger {
        Ledger {
            slots: self.slots,
            writes: Map::new(
                |key: Pubkey| self.writes.contains_key(key),
                |key: Pubkey| self.pruned(self.writes[key]),
            ),
        }
    }

    /// The mirror once a report on a slot is noted.
    pub open spec fn noting(self, update: SlotData) -> Ledger {
        Ledger {
            slots: self.slots.insert(update.slot, self.merged_slot(update)),
            writes: self.writes,
        }
    }

    /// The mirror after a report on a slot: the report is noted, and a slot reported `Rooted`
    /// is the occasion to prune.
    pub open spec fn with_slot(self, update: SlotData) -> Ledger {
        let noted = self.noting(update);
        if update.status == SlotStatus::Rooted {
            noted.prune()
        } else {
            noted
        }
    }

    /// The mirror after a message of the live stream.
    pub open spec fn with_message(self, message: MessageView) -> Ledger {
        match message {
            MessageView::Account(write) => self.with_write(write),
            MessageView::Slot(update) => self.with_slot(update),
            MessageView::Other => self,
        }
    }

    /// Whether the mirror holds, for the write's account and slot, a version with a write
    /// version at least as high as the write's.
    pub open spec fn covers(self, write: AccountWriteView) -> bool {
        exists|i: int|
            0 <= i < self.candidates(write.pubkey).len() && (#[trigger] self.candidates(
                write.pubkey,
            )[i]).slot == write.slot && self.candidates(write.pubkey)[i].write_version
                >= write.write_version
    }
}

/// Among versions in ascending order every slot has its place.
pub proof fn lemma_insert_position(versions: Seq<AccountDataView>, slot: u64)
    requires
        ascending(versions),
    ensures
        is_insert_position(versions, slot, insert_position(versions, slot)),
        forall|p: int|
            is_insert_position(versions, slot, p) ==> p == insert_position(versions, slot),
    decreases versions.len(),
{
    if versions.len() == 0 {
        assert(is_insert_position(versions, slot, 0));
    } else {
        let front = versions.drop_last();
        lemma_insert_position(front, slot);
        let q = insert_position(front, slot);
        if versions.last().slot < slot {
            assert(is_insert_position(versions, slot, versions.len() as int)) by {
                assert forall|i: int| 0 <= i < versions.len() implies versions[i].slot < slot by {
                    if i < versions.len() - 1 {
                        assert(versions[i].slot < versions[versions.len() - 1].slot);
                    }
                }
            }
        } else {
            assert(is_insert_position(versions, slot, q)) by {
                assert forall|i: int| 0 <= i < q implies versions[i].slot < slot by {
                    assert(front[i].slot < slot);
                }
                assert forall|i: int| q <= i < versions.len() implies versions[i].slot
                    >= slot by {
                    if i < versions.len() - 1 {
                        assert(front[i].slot >= slot);
                    }
                }
            }
        }
    }
    let chosen = insert_position(versions, slot);
    assert forall|p: int| is_insert_position(versions, slot, p) implies p == chosen by {
        if p < chosen {
            assert(versions[p].slot >= slot);
            assert(versions[p].slot < slot);
        } else if chosen < p {
            assert(versions[chosen].slot >= slot);
            assert(versions[chosen].slot < slot);
        }
    }
}

/// Offering a version keeps the order, and changes what is held in one way only: the version
/// comes in unless one of its slot with a write version as high is held, and what it
/// replaces leaves.
pub proof fn lemma_insert_version(versions: Seq<AccountDataView>, version: AccountDataView)
    requires
        ascending(versions),
    ensures
        ascending(insert_version(versions, version)),
        forall|c: AccountDataView| #[trigger]
            insert_version(versions, version).contains(c) ==> c == version || versions.contains(c),
        forall|c: AccountDataView| #[trigger]
            versions.contains(c) && c.slot != version.slot ==> insert_version(
                versions,
                version,
            ).contains(c),
        forall|c: AccountDataView| #[trigger]
            insert_version(versions, version).contains(c) && c.slot == version.slot
                ==> c.write_version >= version.write_version,
        exists|i: int|
            0 <= i < insert_version(versions, version).len() && (#[trigger] insert_version(
                versions,
                version,
            )[i]).slot == version.slot && insert_version(versions, version)[i].write_version
                >= version.write_version,
        (forall|c: AccountDataView| #[trigger] versions.contains(c) ==> c.slot != version.slot)
            ==> insert_version(versions, version).contains(version),
        forall|c: AccountDataView| #[trigger]
            versions.contains(c) && c.slot == version.slot && c.write_version
                >= version.write_version ==> insert_version(versions, version) == versions,
{
    lemma_insert_position(versions, version.slot);
    let p = insert_position(versions, version.slot);
    let after = insert_version(versions, version);
    if p < versions.len() && versions[p].slot == version.slot {
        if versions[p].write_version < version.write_version {
            assert(after[p] == version);
            assert forall|c: AccountDataView| #[trigger]
                versions.contains(c) && c.slot != version.slot implies after.contains(c) by {
                let i = choose|i: int| 0 <= i < versions.len() && versions[i] == c;
                assert(after[i] == c);
            }
            assert forall|c: AccountDataView| #[trigger]
                after.contains(c) && c.slot == version.slot implies c.write_version
                >= version.write_version by {
                let i = choose|i: int| 0 <= i < after.len() && after[i] == c;
                if i < p {
                    assert(versions[i].slot < versions[p].slot);
                } else if p < i {
                    assert(versions[p].slot < versions[i].slot);
                }
            }
            assert forall|c: AccountDataView| #[trigger]
                versions.contains(c) && c.slot == version.slot && c.write_version
                    >= version.write_version implies after == versions by {
                let i = choose|i: int| 0 <= i < versions.len() && versions[i] == c;
                if i < p {
                    assert(versions[i].slot < versions[p].slot);
                } else if p < i {
                    assert(versions[p].slot < versions[i].slot);
                }
            }
        } else {
            assert(after[p].slot == version.slot);
            assert forall|c: AccountDataView| #[trigger]
                after.contains(c) && c.slot == version.slot implies c.write_version
                >= version.write_version by {
                let i = choose|i: int| 0 <= i < after.len() && after[i] == c;
                if i < p {
                    assert(versions[i].slot < versions[p].slot);
                } else if p < i {
                    assert(versions[p].slot < versions[i].slot);
                }
            }
        }
        assert(versions.contains(versions[p]));
    } else {
        assert(after[p] == version);
        assert(after.contains(version));
        assert forall|i: int, j: int| 0 <= i < j < after.len() implies after[i].slot
            < after[j].slot by {
            let i0 = if i < p { i } else { i - 1 };
            let j0 = if j < p { j } else { j - 1 };
            if i != p && j != p {
                assert(versions[i0].slot < versions[j0].slot);
            }
        }
        assert forall|c: AccountDataView| #[trigger] versions.contains(c) implies after.contains(
            c,
        ) by {
            let i = choose|i: int| 0 <= i < versions.len() && versions[i] == c;
            let i1 = if i < p { i } else { i + 1 };
            assert(after[i1] == c);
        }
        assert forall|c: AccountDataView| #[trigger] after.contains(c) implies c == version
            || versions.contains(c) by {
            let i = choose|i: int| 0 <= i < after.len() && after[i] == c;
            if i != p {
                let i0 = if i < p { i } else { i - 1 };
                assert(versions[i0] == c);
            }
        }
        assert forall|c: AccountDataView| #[trigger]
            after.contains(c) && c.slot == version.slot implies c.write_version
            >= version.write_version by {
            let i = choose|i: int| 0 <= i < after.len() && after[i] == c;
            if i != p {
                let i0 = if i < p { i } else { i - 1 };
                assert(versions[i0] == c);
            }
        }
        assert forall|c: AccountDataView| #[trigger]
            versions.contains(c) && c.slot == version.slot && c.write_version
                >= version.write_version implies after == versions by {
            let i = choose|i: int| 0 <= i < versions.len() && versions[i] == c;
            assert(false);
        }
    }
}


impl Ledger {
    /// Among versions of which at least one is retained, one is preferred to none of the others.
    proof fn lemma_some_version_is_best(self, versions: Seq<AccountDataView>) -> (best:
        AccountDataView)
        requires
            versions.len() > 0,
        ensures
            versions.contains(best),
            forall|c: AccountDataView| #[trigger] versions.contains(c) ==> !self.outranks(c, best),
        decreases versions.len(),
    {
        if versions.len() == 1 {
            let best = versions[0];
            assert forall|c: AccountDataView| #[trigger] versions.contains(c) implies !self.outranks(
                c,
                best,
            ) by {
                let i = choose|i: int| 0 <= i < versions.len() && versions[i] == c;
            }
            best
        } else {
            let front = versions.drop_last();
            let before = self.lemma_some_version_is_best(front);
            let last = versions.last();
            let best = if self.outranks(last, before) {
                last
            } else {
                before
            };
            let at = choose|i: int| 0 <= i < front.len() && front[i] == before;
            assert(versions[at] == before);
            assert(versions[versions.len() - 1] == last);
            assert forall|c: AccountDataView| #[trigger] versions.contains(c) implies !self.outranks(
                c,
                best,
            ) by {
                let i = choose|i: int| 0 <= i < versions.len() && versions[i] == c;
                if i < versions.len() - 1 {
                    assert(front[i] == c);
                    assert(front.contains(c));
                }
            }
            best
        }
    }

    /// What [`Ledger::lookup`] answers: nothing exactly where no version is retained, and
    /// otherwise the one authoritative version, of which there is exactly one.
    pub proof fn lemma_lookup(self, key: Pubkey)
        requires
            self.wf(),
        ensures
            self.lookup(key) is None <==> self.candidates(key).len() == 0,
            self.lookup(key) matches Some(v) ==> self.authoritative(key, v),
            forall|v: AccountDataView| #[trigger]
                self.authoritative(key, v) ==> self.lookup(key) == Some(v),
    {
        let versions = self.candidates(key);
        if versions.len() > 0 {
            let best = self.lemma_some_version_is_best(versions);
            assert(self.authoritative(key, best));
        }
        assert forall|v: AccountDataView| #[trigger] self.authoritative(key, v) implies self.lookup(
            key,
        ) == Some(v) by {
            let chosen = choose|v: AccountDataView| self.authoritative(key, v);
            let i = choose|i: int| 0 <= i < versions.len() && versions[i] == v;
            let j = choose|j: int| 0 <= j < versions.len() && versions[j] == chosen;
            assert(!self.outranks(v, chosen));
            assert(!self.outranks(chosen, v));
            assert(self.writes.contains_key(key));
            assert(ascending(self.writes[key]));
            if i < j {
                assert(versions[i].slot < versions[j].slot);
            } else if j < i {
                assert(versions[j].slot < versions[i].slot);
            }
        }
        if self.lookup(key) is Some {
            let v = self.lookup(key)->0;
            assert(self.authoritative(key, v));
            let i = choose|i: int| 0 <= i < versions.len() && versions[i] == v;
        }
    }

    /// A write keeps the versions in order.
    pub proof fn lemma_with_write_wf(self, write: AccountWriteView)
        requires
            self.wf(),
        ensures
            self.with_write(write).wf(),
    {
        lemma_insert_version(self.candidates(write.pubkey), write.version());
        let after = self.with_write(write);
        assert forall|key: Pubkey| after.writes.contains_key(key) implies ascending(
            #[trigger] after.writes[key],
        ) by {
            if key != write.pubkey {
                assert(self.writes.contains_key(key));
            }
        }
    }

    /// Writes keep the versions in order.
    pub proof fn lemma_with_writes_wf(self, writes: Seq<AccountWriteView>)
        requires
            self.wf(),
        ensures
            self.with_writes(writes).wf(),
        decreases writes.len(),
    {
        if writes.len() > 0 {
            self.lemma_with_writes_wf(writes.drop_last());
            self.with_writes(writes.drop_last()).lemma_with_write_wf(writes.last());
        }
    }

    /// What pruning keeps of an account's versions: a run at their end that holds every
    /// version to which no version of a settled slot is preferred.
    pub proof fn lemma_pruned(self, versions: Seq<AccountDataView>)
        requires
            ascending(versions),
        ensures
            ascending(self.pruned(versions)),
            forall|c: AccountDataView| #[trigger]
                self.pruned(versions).contains(c) ==> versions.contains(c),
            forall|c: AccountDataView| #[trigger]
                versions.contains(c) && (forall|d: AccountDataView| #[trigger]
                    versions.contains(d) && self.settled(d.slot) ==> d.slot <= c.slot)
                    ==> self.pruned(versions).contains(c),
            versions.len() > 0 ==> self.pruned(versions).len() > 0,
    {
        if exists|p: int| self.is_floor(versions, p) {
            let p = choose|p: int| self.is_floor(versions, p);
            let kept = self.pruned(versions);
            assert forall|c: AccountDataView| #[trigger] kept.contains(c) implies versions.contains(
                c,
            ) by {
                let i = choose|i: int| 0 <= i < kept.len() && kept[i] == c;
                assert(versions[p + i] == c);
            }
            assert forall|c: AccountDataView| #[trigger]
                versions.contains(c) && (forall|d: AccountDataView| #[trigger]
                    versions.contains(d) && self.settled(d.slot) ==> d.slot
                    <= c.slot) implies kept.contains(c) by {
                let i = choose|i: int| 0 <= i < versions.len() && versions[i] == c;
                assert(versions.contains(versions[p]));
                if i < p {
                    assert(versions[i].slot < versions[p].slot);
                }
                assert(kept[i - p] == c);
            }
            assert(kept.len() == versions.len() - p);
        }
    }

    /// Pruning keeps the versions in order.
    pub proof fn lemma_prune_wf(self)
        requires
            self.wf(),
        ensures
            self.prune().wf(),
    {
        let after = self.prune();
        assert forall|key: Pubkey| after.writes.contains_key(key) implies ascending(
            #[trigger] after.writes[key],
        ) by {
            assert(self.writes.contains_key(key));
            self.lemma_pruned(self.writes[key]);
        }
    }

    /// Retention. Pruning is not seen: it never drops the version that the mirror answers
    /// with, and the mirror answers for every account as it did before.
    pub proof fn law_pruning_keeps_answers(self, key: Pubkey)
        requires
            self.wf(),
        ensures
            self.prune().lookup(key) == self.lookup(key),
    {
        let after = self.prune();
        self.lemma_prune_wf();
        self.lemma_lookup(key);
        after.lemma_lookup(key);
        if self.writes.contains_key(key) {
            let versions = self.writes[key];
            assert(ascending(versions));
            self.lemma_pruned(versions);
            assert(after.candidates(key) == self.pruned(versions));
            if versions.len() > 0 {
                let v = self.lookup(key)->0;
                assert(self.authoritative(key, v));
                assert forall|d: AccountDataView| #[trigger]
                    versions.contains(d) && self.settled(d.slot) implies d.slot <= v.slot by {
                    assert(!self.outranks(d, v));
                }
                assert(after.candidates(key).contains(v));
                assert forall|c: AccountDataView| #[trigger]
                    after.candidates(key).contains(c) implies !after.outranks(c, v) by {
                    assert(versions.contains(c));
                    assert(!self.outranks(c, v));
                }
                assert(after.authoritative(key, v));
            }
        } else {
            assert(!after.writes.contains_key(key));
        }
    }

    /// A report on a slot keeps the versions in order.
    pub proof fn lemma_with_slot_wf(self, update: SlotData)
        requires
            self.wf(),
        ensures
            self.with_slot(update).wf(),
    {
        let noted = Ledger {
            slots: self.slots.insert(update.slot, self.merged_slot(update)),
            writes: self.writes,
        };
        assert(noted.wf());
        noted.lemma_prune_wf();
    }

    /// A report on a slot leaves the status of every other slot as it was, and never takes a
    /// slot's status back.
    pub proof fn lemma_with_slot_status(self, update: SlotData, slot: u64)
        ensures
            slot != update.slot ==> self.with_slot(update).status(slot) == self.status(slot),
            self.with_slot(update).status(slot).rank() >= self.status(slot).rank(),
            self.with_slot(update).status(update.slot) == self.status(update.slot).later(
                update.status,
            ),
    {
    }
}

/// Order. Whatever message the mirror takes in, every account's versions stay in ascending
/// order of slot, so that no account ever has two versions of one slot.
pub proof fn law_messages_keep_order(ledger: Ledger, message: MessageView)
    requires
        ledger.wf(),
    ensures
        ledger.with_message(message).wf(),
{
    match message {
        MessageView::Account(write) => ledger.lemma_with_write_wf(write),
        MessageView::Slot(update) => ledger.lemma_with_slot_wf(update),
        MessageView::Other => {},
    }
}

/// Freshness. A write whose version is less preferred than the version that the mirror
/// answers with does not change the answer.
pub proof fn law_outranked_write_keeps_answer(ledger: Ledger, key: Pubkey, write: AccountWriteView)
    requires
        ledger.wf(),
        ledger.lookup(key) matches Some(v) && ledger.outranks(v, write.version()),
    ensures
        ledger.with_write(write).lookup(key) == ledger.lookup(key),
{
    let after = ledger.with_write(write);
    let v = ledger.lookup(key)->0;
    ledger.lemma_lookup(key);
    ledger.lemma_with_write_wf(write);
    after.lemma_lookup(key);
    if write.pubkey == key {
        let held = ledger.candidates(key);
        lemma_insert_version(held, write.version());
        lemma_insert_position(held, write.slot);
        assert(after.candidates(key) == insert_version(held, write.version()));
        let p = insert_position(held, write.slot);
        let i = choose|i: int| 0 <= i < held.len() && held[i] == v;
        if v.slot == write.slot {
            if i < p {
                assert(held[i].slot < write.slot);
            } else if p < i {
                assert(held[p].slot >= write.slot);
                assert(held[p].slot < held[i].slot);
            }
            assert(after.candidates(key) == held);
        }
        assert(after.candidates(key).contains(v));
        assert forall|c: AccountDataView| #[trigger]
            after.candidates(key).contains(c) implies !after.outranks(c, v) by {
            if c != write.version() {
                assert(held.contains(c));
                assert(!ledger.outranks(c, v));
            }
        }
        assert(after.authoritative(key, v));
    } else {
        assert(after.candidates(key) == ledger.candidates(key));
        assert(after.authoritative(key, v));
    }
}

/// Freshness. Once the mirror answers for an account with a version in a settled slot
/// (`Confirmed` or `Rooted`), a write of an earlier slot does not change the answer.
pub proof fn law_earlier_write_keeps_settled_answer(
    ledger: Ledger,
    key: Pubkey,
    write: AccountWriteView,
)
    requires
        ledger.wf(),
        ledger.lookup(key) matches Some(v) && ledger.settled(v.slot) && write.slot < v.slot,
    ensures
        ledger.with_write(write).lookup(key) == ledger.lookup(key),
{
    law_outranked_write_keeps_answer(ledger, key, write);
}

/// Freshness. Once the mirror answers for an account with a version in a settled slot
/// (`Confirmed` or `Rooted`), a report on an earlier slot does not change the answer.
pub proof fn law_earlier_slot_keeps_settled_answer(ledger: Ledger, key: Pubkey, update: SlotData)
    requires
        ledger.wf(),
        ledger.lookup(key) matches Some(v) && ledger.settled(v.slot) && update.slot < v.slot,
    ensures
        ledger.with_slot(update).lookup(key) == ledger.lookup(key),
{
    let v = ledger.lookup(key)->0;
    let noted = Ledger {
        slots: ledger.slots.insert(update.slot, ledger.merged_slot(update)),
        writes: ledger.writes,
    };
    ledger.lemma_lookup(key);
    assert(noted.wf());
    noted.lemma_lookup(key);
    assert(noted.candidates(key) == ledger.candidates(key));
    assert forall|c: AccountDataView| #[trigger]
        noted.candidates(key).contains(c) implies !noted.outranks(c, v) by {
        assert(!ledger.outranks(c, v));
        ledger.lemma_with_slot_status(update, c.slot);
        ledger.lemma_with_slot_status(update, v.slot);
    }
    assert(noted.authoritative(key, v));
    noted.law_pruning_keeps_answers(key);
}

/// Tie-break. Of two writes to one account in one slot the one with the higher write
/// version prevails, in whichever order they arrive: the mirror answers alike in both
/// orders, an answer in that slot has a write version no lower than the higher write's, and
/// it is the higher write unless the mirror held a version of that slot with a write version
/// as high before.
pub proof fn law_higher_write_version_prevails(
    ledger: Ledger,
    lower: AccountWriteView,
    higher: AccountWriteView,
)
    requires
        ledger.wf(),
        lower.pubkey == higher.pubkey,
        lower.slot == higher.slot,
        lower.write_version < higher.write_version,
    ensures
        ledger.with_write(lower).with_write(higher).lookup(higher.pubkey) == ledger.with_write(
            higher,
        ).with_write(lower).lookup(higher.pubkey),
        ledger.with_write(lower).with_write(higher).lookup(higher.pubkey) matches Some(v) ==> (
        v.slot == higher.slot ==> v.write_version >= higher.write_version && (!ledger.covers(
            higher,
        ) ==> v == higher.version())),
{
    let key = higher.pubkey;
    let held = ledger.candidates(key);
    let one = ledger.with_write(lower);
    let two = one.with_write(higher);
    let other = ledger.with_write(higher);
    ledger.lemma_with_write_wf(lower);
    ledger.lemma_with_write_wf(higher);
    one.lemma_with_write_wf(higher);
    other.lemma_with_write_wf(lower);
    lemma_insert_version(held, lower.version());
    lemma_insert_version(held, higher.version());
    lemma_insert_version(one.candidates(key), higher.version());
    lemma_insert_version(other.candidates(key), lower.version());
    lemma_insert_position(held, higher.slot);
    lemma_insert_position(one.candidates(key), higher.slot);
    lemma_insert_position(other.candidates(key), higher.slot);
    let p = insert_position(held, higher.slot);
    assert(one.candidates(key) == insert_version(held, lower.version()));
    assert(other.candidates(key) == insert_version(held, higher.version()));
    assert(is_insert_position(one.candidates(key), higher.slot, p));
    assert(is_insert_position(other.candidates(key), higher.slot, p));
    assert(two.candidates(key) =~= other.with_write(lower).candidates(key));
    assert(two.writes =~= other.with_write(lower).writes);
    two.lemma_lookup(key);
    if two.lookup(key) is Some {
        let v = two.lookup(key)->0;
        if v.slot == higher.slot && !ledger.covers(higher) {
            let i = choose|i: int|
                0 <= i < two.candidates(key).len() && two.candidates(key)[i] == v;
            if p < held.len() && held[p].slot == higher.slot {
                assert(held[p].write_version < higher.write_version);
            }
            if i < p {
                assert(two.candidates(key)[i].slot < higher.slot);
            } else if p < i {
                assert(two.candidates(key)[p].slot < two.candidates(key)[i].slot);
            }
        }
    }
}

impl Ledger {
    /// Once a write is covered it stays covered, whatever is written after it.
    proof fn lemma_covered_stays(self, write: AccountWriteView, next: AccountWriteView)
        requires
            self.wf(),
            self.covers(write),
        ensures
            self.with_write(next).covers(write),
    {
        let held = self.candidates(write.pubkey);
        let i = choose|i: int|
            0 <= i < held.len() && (#[trigger] held[i]).slot == write.slot && held[i].write_version
                >= write.write_version;
        let after = self.with_write(next);
        if next.pubkey == write.pubkey {
            lemma_insert_version(held, next.version());
            let kept = after.candidates(write.pubkey);
            assert(kept == insert_version(held, next.version()));
            assert(held.contains(held[i]));
            if next.slot == write.slot {
                let j = choose|j: int|
                    0 <= j < kept.len() && (#[trigger] kept[j]).slot == next.slot
                        && kept[j].write_version >= next.write_version;
                assert(kept.contains(kept[j]));
                if kept[j] != next.version() {
                    assert(held.contains(kept[j]));
                    let k = choose|k: int| 0 <= k < held.len() && held[k] == kept[j];
                    if k < i {
                        assert(held[k].slot < held[i].slot);
                    } else if i < k {
                        assert(held[i].slot < held[k].slot);
                    }
                } else {
                    if next.write_version < write.write_version {
                        assert(kept == held);
                        assert(kept.contains(next.version()));
                        let k = choose|k: int| 0 <= k < held.len() && held[k] == next.version();
                        if k < i {
                            assert(held[k].slot < held[i].slot);
                        } else if i < k {
                            assert(held[i].slot < held[k].slot);
                        }
                    }
                }
            } else {
                assert(kept.contains(held[i]));
                let j = choose|j: int| 0 <= j < kept.len() && kept[j] == held[i];
                assert(kept[j].slot == write.slot);
            }
        } else {
            assert(after.candidates(write.pubkey) == held);
        }
    }

    /// A write that is covered changes nothing.
    proof fn lemma_covered_write_is_idle(self, write: AccountWriteView)
        requires
            self.wf(),
            self.covers(write),
        ensures
            self.with_write(write) == self,
    {
        let held = self.candidates(write.pubkey);
        let i = choose|i: int|
            0 <= i < held.len() && (#[trigger] held[i]).slot == write.slot && held[i].write_version
                >= write.write_version;
        assert(held.contains(held[i]));
        lemma_insert_version(held, write.version());
        assert(self.writes.contains_key(write.pubkey));
        assert(self.with_write(write).writes =~= self.writes);
    }

    /// After a sequence of writes each of them is covered.
    proof fn lemma_writes_are_covered(self, writes: Seq<AccountWriteView>, i: int)
        requires
            self.wf(),
            0 <= i < writes.len(),
        ensures
            self.with_writes(writes).covers(writes[i]),
        decreases writes.len(),
    {
        let front = writes.drop_last();
        let before = self.with_writes(front);
        self.lemma_with_writes_wf(front);
        if i == writes.len() - 1 {
            lemma_insert_version(before.candidates(writes.last().pubkey), writes.last().version());
            assert(before.with_write(writes.last()).candidates(writes.last().pubkey)
                == insert_version(
                before.candidates(writes.last().pubkey),
                writes.last().version(),
            ));
        } else {
            self.lemma_writes_are_covered(front, i);
            assert(front[i] == writes[i]);
            before.lemma_covered_stays(writes[i], writes.last());
        }
    }

    /// Writes that are all covered change nothing.
    proof fn lemma_covered_writes_are_idle(self, writes: Seq<AccountWriteView>)
        requires
            self.wf(),
            forall|i: int| 0 <= i < writes.len() ==> self.covers(#[trigger] writes[i]),
        ensures
            self.with_writes(writes) == self,
        decreases writes.len(),
    {
        if writes.len() > 0 {
            let front = writes.drop_last();
            assert forall|i: int| 0 <= i < front.len() implies self.covers(
                #[trigger] front[i],
            ) by {
                assert(front[i] == writes[i]);
            }
            self.lemma_covered_writes_are_idle(front);
            assert(self.covers(writes[writes.len() - 1]));
            self.lemma_covered_write_is_idle(writes.last());
        }
    }
}

/// Idempotence. Bringing the same writes in a second time changes nothing: the mirror is the
/// same, and so is its answer for every account. A snapshot is such a sequence of writes.
pub proof fn law_repeated_writes_are_idle(ledger: Ledger, writes: Seq<AccountWriteView>)
    requires
        ledger.wf(),
    ensures
        ledger.with_writes(writes).with_writes(writes) == ledger.with_writes(writes),
        forall|key: Pubkey|
            ledger.with_writes(writes).with_writes(writes).lookup(key) == ledger.with_writes(
                writes,
            ).lookup(key),
{
    let once = ledger.with_writes(writes);
    ledger.lemma_with_writes_wf(writes);
    assert forall|i: int| 0 <= i < writes.len() implies once.covers(#[trigger] writes[i]) by {
        ledger.lemma_writes_are_covered(writes, i);
    }
    once.lemma_covered_writes_are_idle(writes);
}

/// Idempotence of snapshots. Merging a snapshot, and then one that holds the same accounts
/// as of the same slot, leaves the mirror as the first merge left it, and so its answer for
/// every account.
pub proof fn law_repeated_snapshot_is_idle(
    ledger: Ledger,
    first: AccountSnapshot,
    second: AccountSnapshot,
)
    requires
        ledger.wf(),
        first.writes() == second.writes(),
    ensures
        ledger.with_writes(first.writes()).with_writes(second.writes()) == ledger.with_writes(
            first.writes(),
        ),
        forall|key: Pubkey|
            ledger.with_writes(first.writes()).with_writes(second.writes()).lookup(key)
                == ledger.with_writes(first.writes()).lookup(key),
{
    law_repeated_writes_are_idle(ledger, first.writes());
}

} // verus!
