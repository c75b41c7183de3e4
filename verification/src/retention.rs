//! What the mirror retains is enough.
//!
//! Pruning is never seen: a mirror that prunes answers, after any messages whatever, as a
//! mirror does that keeps every version it was ever given. And the floor of an account only
//! rises: once a version as of some slot is held, no earlier version that is not of a
//! settled slot is answered with again.

use crate::account::{AccountDataView, AccountWriteView, MessageView, SlotData, SlotStatus};
use crate::ledger::{
    insert_position, insert_version, lemma_insert_position, lemma_insert_version, Ledger,
};
use crate::pubkey::Pubkey;
use vstd::prelude::*;

verus! {

/// Offering a version brings it in, unless one of its slot with a write version as high is
/// held.
proof fn lemma_offered_version(versions: Seq<AccountDataView>, version: AccountDataView)
    requires
        crate::ledger::ascending(versions),
    ensures
        insert_version(versions, version).contains(version) || exists|c: AccountDataView| #[trigger]
            versions.contains(c) && c.slot == version.slot && c.write_version
                >= version.write_version,
{
    lemma_insert_position(versions, version.slot);
    let p = insert_position(versions, version.slot);
    let after = insert_version(versions, version);
    if p < versions.len() && versions[p].slot == version.slot {
        if versions[p].write_version < version.write_version {
            assert(after[p] == version);
        } else {
            assert(versions.contains(versions[p]));
        }
    } else {
        assert(after[p] == version);
    }
}

impl Ledger {
    /// The mirror after a message, had it no mind to prune.
    pub open spec fn with_message_unpruned(self, message: MessageView) -> Ledger {
        match message {
            MessageView::Account(write) => self.with_write(write),
            MessageView::Slot(update) => self.noting(update),
            MessageView::Other => self,
        }
    }

    /// The mirror after a sequence of messages, first to last.
    pub open spec fn with_messages(self, messages: Seq<MessageView>) -> Ledger
        decreases messages.len(),
    {
        if messages.len() == 0 {
            self
        } else {
            self.with_messages(messages.drop_last()).with_message(messages.last())
        }
    }

    /// The mirror after a sequence of messages, had it no mind to prune.
    pub open spec fn with_messages_unpruned(self, messages: Seq<MessageView>) -> Ledger
        decreases messages.len(),
    {
        if messages.len() == 0 {
            self
        } else {
            self.with_messages_unpruned(messages.drop_last()).with_message_unpruned(
                messages.last(),
            )
        }
    }

    /// Whether a version still counts: it is retained, and no version of a later slot that
    /// is settled is retained beside it.
    pub open spec fn counts(self, key: Pubkey, version: AccountDataView) -> bool {
        &&& self.candidates(key).contains(version)
        &&& forall|d: AccountDataView| #[trigger]
            self.candidates(key).contains(d) && self.settled(d.slot) ==> d.slot <= version.slot
    }

    /// Whether two mirrors know the same of every slot and hold the same versions that
    /// still count.
    pub open spec fn agrees_with(self, other: Ledger) -> bool {
        &&& self.slots == other.slots
        &&& forall|key: Pubkey, version: AccountDataView|
            #![trigger self.counts(key, version)]
            #![trigger other.counts(key, version)]
            self.counts(key, version) <==> other.counts(key, version)
    }

    /// The version that the mirror answers with counts, and where any version is of a
    /// settled slot, it is of the latest such slot.
    proof fn lemma_answer_counts(self, key: Pubkey)
        requires
            self.wf(),
            self.candidates(key).len() > 0,
        ensures
            self.lookup(key) is Some,
            self.counts(key, self.lookup(key)->0),
            forall|d: AccountDataView| #[trigger]
                self.candidates(key).contains(d) && self.settled(d.slot) ==> self.settled(
                    self.lookup(key)->0.slot,
                ) && d.slot <= self.lookup(key)->0.slot,
    {
        self.lemma_lookup(key);
        let a = self.lookup(key)->0;
        assert(self.authoritative(key, a));
        assert forall|d: AccountDataView| #[trigger]
            self.candidates(key).contains(d) && self.settled(d.slot) implies self.settled(a.slot)
            && d.slot <= a.slot by {
            assert(!self.outranks(d, a));
        }
    }

    /// Mirrors that agree answer alike.
    pub proof fn lemma_agreeing_mirrors_answer_alike(self, other: Ledger, key: Pubkey)
        requires
            self.wf(),
            other.wf(),
            self.agrees_with(other),
        ensures
            self.lookup(key) == other.lookup(key),
    {
        self.lemma_lookup(key);
        other.lemma_lookup(key);
        if self.candidates(key).len() > 0 {
            self.lemma_answer_counts(key);
            let a = self.lookup(key)->0;
            assert(other.counts(key, a));
            let held = other.candidates(key);
            let i = choose|i: int| 0 <= i < held.len() && held[i] == a;
            other.lemma_answer_counts(key);
            let b = other.lookup(key)->0;
            assert(self.counts(key, b));
            assert(self.authoritative(key, a));
            assert(other.authoritative(key, b));
            assert(!self.outranks(b, a));
            assert(!other.outranks(a, b));
            let j = choose|j: int| 0 <= j < held.len() && held[j] == b;
            assert(other.writes.contains_key(key));
            assert(crate::ledger::ascending(other.writes[key]));
            if i < j {
                assert(held[i].slot < held[j].slot);
            } else if j < i {
                assert(held[j].slot < held[i].slot);
            }
        } else if other.candidates(key).len() > 0 {
            other.lemma_answer_counts(key);
            let b = other.lookup(key)->0;
            assert(self.counts(key, b));
            let held = self.candidates(key);
            let j = choose|j: int| 0 <= j < held.len() && held[j] == b;
        }
    }

    /// A version that counts after a write to one of two agreeing mirrors counts after the
    /// same write to the other.
    proof fn lemma_write_keeps_counting(
        self,
        other: Ledger,
        write: AccountWriteView,
        key: Pubkey,
        c: AccountDataView,
    )
        requires
            self.wf(),
            other.wf(),
            self.agrees_with(other),
            self.with_write(write).counts(key, c),
        ensures
            other.with_write(write).counts(key, c),
    {
        let mine = self.with_write(write);
        let theirs = other.with_write(write);
        if key != write.pubkey {
            assert(mine.candidates(key) == self.candidates(key));
            assert(theirs.candidates(key) == other.candidates(key));
            assert(self.counts(key, c));
            assert(other.counts(key, c));
        } else {
            let v = write.version();
            let held = self.candidates(key);
            let kept = other.candidates(key);
            let held2 = mine.candidates(key);
            let kept2 = theirs.candidates(key);
            assert(held2 == insert_version(held, v));
            assert(kept2 == insert_version(kept, v));
            lemma_insert_version(held, v);
            lemma_insert_version(kept, v);
            lemma_offered_version(kept, v);
            let at = choose|i: int|
                0 <= i < held2.len() && (#[trigger] held2[i]).slot == v.slot
                    && held2[i].write_version >= v.write_version;
            let top = held2[at];
            assert(held2.contains(top));
            // No version of a later, settled slot is retained beside `c` in the other mirror.
            assert forall|d: AccountDataView| #[trigger]
                kept2.contains(d) && theirs.settled(d.slot) implies d.slot <= c.slot by {
                if d.slot > c.slot {
                    if kept.contains(d) {
                        let w = choose|w: int| 0 <= w < kept.len() && kept[w] == d;
                        other.lemma_answer_counts(key);
                        let m = other.lookup(key)->0;
                        assert(other.counts(key, m));
                        assert(self.counts(key, m));
                        if m.slot != v.slot {
                            assert(held2.contains(m));
                            assert(mine.settled(m.slot));
                        } else {
                            assert(mine.settled(top.slot));
                        }
                    } else {
                        assert(d == v);
                        assert(mine.settled(top.slot));
                    }
                }
            }
            // `c` is retained in the other mirror.
            if held.contains(c) {
                assert forall|d: AccountDataView| #[trigger]
                    held.contains(d) && self.settled(d.slot) implies d.slot <= c.slot by {
                    if d.slot > c.slot {
                        if d.slot != v.slot {
                            assert(held2.contains(d));
                            assert(mine.settled(d.slot));
                        } else {
                            assert(mine.settled(top.slot));
                        }
                    }
                }
                assert(self.counts(key, c));
                assert(other.counts(key, c));
                if c.slot == v.slot {
                    assert(c.write_version >= v.write_version);
                    assert(kept2 == kept);
                }
            } else {
                assert(c == v);
                if !kept2.contains(v) {
                    let e = choose|e: AccountDataView| #[trigger]
                        kept.contains(e) && e.slot == v.slot && e.write_version
                            >= v.write_version;
                    assert(kept2 == kept);
                    assert(other.counts(key, e));
                    assert(self.counts(key, e));
                    assert(held2 == held);
                }
            }
        }
    }

    /// A write keeps two agreeing mirrors agreeing.
    proof fn lemma_write_agrees(self, other: Ledger, write: AccountWriteView)
        requires
            self.wf(),
            other.wf(),
            self.agrees_with(other),
        ensures
            self.with_write(write).agrees_with(other.with_write(write)),
    {
        let mine = self.with_write(write);
        let theirs = other.with_write(write);
        assert forall|key: Pubkey, c: AccountDataView|
            #![trigger mine.counts(key, c)]
            #![trigger theirs.counts(key, c)]
            mine.counts(key, c) <==> theirs.counts(key, c) by {
            if mine.counts(key, c) {
                self.lemma_write_keeps_counting(other, write, key, c);
            }
            if theirs.counts(key, c) {
                other.lemma_write_keeps_counting(self, write, key, c);
            }
        }
    }

    /// A version that counts after a report is noted by one of two agreeing mirrors counts
    /// after the other notes the same.
    proof fn lemma_report_keeps_counting(
        self,
        other: Ledger,
        update: SlotData,
        key: Pubkey,
        c: AccountDataView,
    )
        requires
            self.wf(),
            other.wf(),
            self.agrees_with(other),
            self.noting(update).counts(key, c),
        ensures
            other.noting(update).counts(key, c),
    {
        let mine = self.noting(update);
        let theirs = other.noting(update);
        assert(mine.candidates(key) == self.candidates(key));
        assert(theirs.candidates(key) == other.candidates(key));
        assert forall|slot: u64| self.settled(slot) implies mine.settled(slot) by {}
        assert forall|slot: u64| other.settled(slot) implies theirs.settled(slot) by {}
        assert(self.counts(key, c));
        assert(other.counts(key, c));
        let kept = other.candidates(key);
        assert forall|d: AccountDataView| #[trigger]
            kept.contains(d) && theirs.settled(d.slot) implies d.slot <= c.slot by {
            if d.slot > c.slot {
                let w = choose|w: int| 0 <= w < kept.len() && kept[w] == d;
                assert(theirs.wf());
                theirs.lemma_answer_counts(key);
                let m = theirs.lookup(key)->0;
                assert(theirs.counts(key, m));
                assert(other.counts(key, m));
                assert(self.counts(key, m));
                assert(mine.settled(m.slot));
            }
        }
    }

    /// Noting a report keeps two agreeing mirrors agreeing.
    proof fn lemma_report_agrees(self, other: Ledger, update: SlotData)
        requires
            self.wf(),
            other.wf(),
            self.agrees_with(other),
        ensures
            self.noting(update).agrees_with(other.noting(update)),
    {
        let mine = self.noting(update);
        let theirs = other.noting(update);
        assert forall|key: Pubkey, c: AccountDataView|
            #![trigger mine.counts(key, c)]
            #![trigger theirs.counts(key, c)]
            mine.counts(key, c) <==> theirs.counts(key, c) by {
            if mine.counts(key, c) {
                self.lemma_report_keeps_counting(other, update, key, c);
            }
            if theirs.counts(key, c) {
                other.lemma_report_keeps_counting(self, update, key, c);
            }
        }
    }

    /// Pruning drops only versions that no longer count.
    proof fn lemma_pruning_agrees(self)
        requires
            self.wf(),
        ensures
            self.prune().agrees_with(self),
    {
        let pruned = self.prune();
        self.lemma_prune_wf();
        assert forall|key: Pubkey, c: AccountDataView|
            #![trigger pruned.counts(key, c)]
            #![trigger self.counts(key, c)]
            pruned.counts(key, c) <==> self.counts(key, c) by {
            if self.writes.contains_key(key) {
                let held = self.writes[key];
                assert(crate::ledger::ascending(held));
                self.lemma_pruned(held);
                assert(pruned.candidates(key) == self.pruned(held));
                assert(self.candidates(key) == held);
                if self.counts(key, c) {
                    assert(self.pruned(held).contains(c));
                }
                if pruned.counts(key, c) {
                    assert(held.contains(c));
                    assert forall|d: AccountDataView| #[trigger]
                        held.contains(d) && self.settled(d.slot) implies d.slot <= c.slot by {
                        if d.slot > c.slot {
                            let w = choose|w: int| 0 <= w < held.len() && held[w] == d;
                            self.lemma_answer_counts(key);
                            let m = self.lookup(key)->0;
                            assert(self.counts(key, m));
                            assert(self.pruned(held).contains(m));
                            assert(pruned.settled(m.slot));
                        }
                    }
                }
            } else {
                assert(!pruned.writes.contains_key(key));
            }
        }
    }

    /// The mirror that prunes and the mirror that does not agree after any messages.
    proof fn lemma_runs_agree(self, messages: Seq<MessageView>)
        requires
            self.wf(),
        ensures
            self.with_messages(messages).wf(),
            self.with_messages_unpruned(messages).wf(),
            self.with_messages(messages).agrees_with(self.with_messages_unpruned(messages)),
        decreases messages.len(),
    {
        if messages.len() > 0 {
            let front = messages.drop_last();
            self.lemma_runs_agree(front);
            let mine = self.with_messages(front);
            let theirs = self.with_messages_unpruned(front);
            match messages.last() {
                MessageView::Account(write) => {
                    mine.lemma_with_write_wf(write);
                    theirs.lemma_with_write_wf(write);
                    mine.lemma_write_agrees(theirs, write);
                },
                MessageView::Slot(update) => {
                    mine.lemma_with_slot_wf(update);
                    assert(theirs.noting(update).wf());
                    assert(mine.noting(update).wf());
                    mine.lemma_report_agrees(theirs, update);
                    if update.status == SlotStatus::Rooted {
                        mine.noting(update).lemma_pruning_agrees();
                    }
                },
                MessageView::Other => {},
            }
        }
    }
}

/// Retention. Whatever messages come, in whatever order, the mirror answers for every
/// account as it would if it had never dropped a version.
pub proof fn law_pruning_is_never_seen(ledger: Ledger, messages: Seq<MessageView>, key: Pubkey)
    requires
        ledger.wf(),
    ensures
        ledger.with_messages(messages).lookup(key) == ledger.with_messages_unpruned(
            messages,
        ).lookup(key),
{
    ledger.lemma_runs_agree(messages);
    ledger.with_messages(messages).lemma_agreeing_mirrors_answer_alike(
        ledger.with_messages_unpruned(messages),
        key,
    );
}

impl Ledger {
    /// Whether a version of `key` of slot `slot` or later is retained.
    pub open spec fn reaches(self, key: Pubkey, slot: u64) -> bool {
        exists|c: AccountDataView| #[trigger] self.candidates(key).contains(c) && c.slot >= slot
    }

    /// A write leaves every account reaching as far as it did, and makes its own account
    /// reach its slot.
    proof fn lemma_write_reaches(self, write: AccountWriteView, key: Pubkey, slot: u64)
        requires
            self.wf(),
        ensures
            self.reaches(key, slot) ==> self.with_write(write).reaches(key, slot),
            self.with_write(write).reaches(write.pubkey, write.slot),
    {
        let after = self.with_write(write);
        let v = write.version();
        let held = self.candidates(write.pubkey);
        let held2 = after.candidates(write.pubkey);
        assert(held2 == insert_version(held, v));
        lemma_insert_version(held, v);
        let at = choose|i: int|
            0 <= i < held2.len() && (#[trigger] held2[i]).slot == v.slot && held2[i].write_version
                >= v.write_version;
        assert(held2.contains(held2[at]));
        if self.reaches(key, slot) {
            let c = choose|c: AccountDataView| #[trigger]
                self.candidates(key).contains(c) && c.slot >= slot;
            if key != write.pubkey {
                assert(after.candidates(key) == self.candidates(key));
                assert(after.candidates(key).contains(c));
            } else if c.slot != v.slot {
                assert(held2.contains(c));
            }
        }
    }

    /// A report on a slot leaves every account reaching as far as it did.
    proof fn lemma_report_reaches(self, update: SlotData, key: Pubkey, slot: u64)
        requires
            self.wf(),
            self.reaches(key, slot),
        ensures
            self.with_slot(update).reaches(key, slot),
    {
        let noted = self.noting(update);
        let c = choose|c: AccountDataView| #[trigger]
            self.candidates(key).contains(c) && c.slot >= slot;
        assert(noted.candidates(key) == self.candidates(key));
        assert(noted.candidates(key).contains(c));
        assert(noted.wf());
        if update.status == SlotStatus::Rooted {
            let pruned = noted.prune();
            let held = noted.writes[key];
            assert(noted.writes.contains_key(key));
            assert(crate::ledger::ascending(held));
            noted.lemma_pruned(held);
            assert(pruned.candidates(key) == noted.pruned(held));
            let w = choose|w: int| 0 <= w < held.len() && held[w] == c;
            noted.lemma_answer_counts(key);
            let m = noted.lookup(key)->0;
            assert(noted.counts(key, m));
            assert(noted.pruned(held).contains(m));
            if !noted.counts(key, c) {
                assert(m.slot >= c.slot);
            } else {
                assert(noted.pruned(held).contains(c));
            }
        }
    }

    /// Where an account reaches a slot, the mirror answers for it, and with a version of
    /// that slot or later or else of a settled slot.
    proof fn lemma_reaching_answer(self, key: Pubkey, slot: u64)
        requires
            self.wf(),
            self.reaches(key, slot),
        ensures
            self.lookup(key) matches Some(v) && (v.slot >= slot || self.settled(v.slot)),
    {
        let c = choose|c: AccountDataView| #[trigger]
            self.candidates(key).contains(c) && c.slot >= slot;
        let held = self.candidates(key);
        let w = choose|w: int| 0 <= w < held.len() && held[w] == c;
        self.lemma_lookup(key);
        let v = self.lookup(key)->0;
        assert(self.authoritative(key, v));
        assert(!self.outranks(c, v));
    }
}

/// The floor only rises. Once the mirror holds a version of an account as of some slot (a
/// snapshot brings one for each of its accounts), it answers for that account for ever
/// after, whatever messages come, and never again with an earlier version that is not of a
/// settled slot.
pub proof fn law_floor_only_rises(
    ledger: Ledger,
    messages: Seq<MessageView>,
    key: Pubkey,
    slot: u64,
)
    requires
        ledger.wf(),
        ledger.reaches(key, slot),
    ensures
        ledger.with_messages(messages).wf(),
        ledger.with_messages(messages).reaches(key, slot),
        ledger.with_messages(messages).lookup(key) matches Some(v) && (v.slot >= slot
            || ledger.with_messages(messages).settled(v.slot)),
    decreases messages.len(),
{
    if messages.len() > 0 {
        let front = messages.drop_last();
        law_floor_only_rises(ledger, front, key, slot);
        let before = ledger.with_messages(front);
        match messages.last() {
            MessageView::Account(write) => {
                before.lemma_with_write_wf(write);
                before.lemma_write_reaches(write, key, slot);
            },
            MessageView::Slot(update) => {
                before.lemma_with_slot_wf(update);
                before.lemma_report_reaches(update, key, slot);
            },
            MessageView::Other => {},
        }
    }
    ledger.with_messages(messages).lemma_reaching_answer(key, slot);
}

/// A write makes its account reach its slot: from then on the floor of that account is at
/// least the slot of the write.
pub proof fn law_write_sets_floor(ledger: Ledger, write: AccountWriteView)
    requires
        ledger.wf(),
    ensures
        ledger.with_write(write).wf(),
        ledger.with_write(write).reaches(write.pubkey, write.slot),
{
    ledger.lemma_with_write_wf(write);
    ledger.lemma_write_reaches(write, write.pubkey, write.slot);
}

} // verus!
