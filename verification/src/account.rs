//! Accounts, the writes that change them, and the messages that carry both.

use crate::pubkey::Pubkey;
use vstd::prelude::*;

verus! {

/// How far the ledger has settled a slot.
#[derive(Clone, Copy, Debug, PartialEq, Eq, Structural)]
pub enum SlotStatus {
    /// Produced by some validator; may yet be abandoned.
    Processed,
    /// Voted on by a supermajority.
    Confirmed,
    /// Final.
    Rooted,
}

impl SlotStatus {
    /// The statuses in the order in which a slot passes through them.
    pub open spec fn rank(self) -> int {
        match self {
            SlotStatus::Processed => 0,
            SlotStatus::Confirmed => 1,
            SlotStatus::Rooted => 2,
        }
    }

    /// Whether the status is `Confirmed` or `Rooted`.
    pub open spec fn spec_is_settled(self) -> bool {
        self.rank() >= 1
    }

    /// Whether the status is `Confirmed` or `Rooted`.
    #[verifier::when_used_as_spec(spec_is_settled)]
    pub fn is_settled(self) -> (settled: bool)
        ensures
            settled == self.spec_is_settled(),
    {
        match self {
            SlotStatus::Processed => false,
            SlotStatus::Confirmed => true,
            SlotStatus::Rooted => true,
        }
    }

    /// The later of two statuses.
    pub open spec fn spec_later(self, other: SlotStatus) -> SlotStatus {
        if other.rank() > self.rank() {
            other
        } else {
            self
        }
    }

    /// The later of two statuses.
    #[verifier::when_used_as_spec(spec_later)]
    pub fn later(self, other: SlotStatus) -> (status: SlotStatus)
        ensures
            status == self.spec_later(other),
    {
        match (self, other) {
            (SlotStatus::Rooted, _) => SlotStatus::Rooted,
            (_, SlotStatus::Rooted) => SlotStatus::Rooted,
            (SlotStatus::Confirmed, _) => SlotStatus::Confirmed,
            (_, SlotStatus::Confirmed) => SlotStatus::Confirmed,
            _ => SlotStatus::Processed,
        }
    }
}

/// What is known of one slot: its parent in the fork tree, where reported, and its status.
#[derive(Clone, Copy, Debug, PartialEq, Eq, Structural)]
pub struct SlotData {
    pub slot: u64,
    pub parent: Option<u64>,
    pub status: SlotStatus,
}

/// The state of an account: the program that owns it and its contents.
#[derive(Clone, Debug, PartialEq, Eq)]
pub struct Account {
    pub owner: Pubkey,
    pub data: Vec<u8>,
}

/// An [`Account`] as a value: its owner and its bytes.
pub struct AccountView {
    pub owner: Pubkey,
    pub data: Seq<u8>,
}

impl View for Account {
    type V = AccountView;

    open spec fn view(&self) -> AccountView {
        AccountView { owner: self.owner, data: self.data@ }
    }
}

impl Account {
    /// The program that owns the account.
    pub fn owner(&self) -> (owner: &Pubkey)
        ensures
            *owner == self.owner,
    {
        &self.owner
    }

    /// The account's contents.
    pub fn data(&self) -> (data: &[u8])
        ensures
            data@ == self.data@,
    {
        self.data.as_slice()
    }
}

/// One version of an account: its state as of a slot, and the write that made it.
#[derive(Clone, Debug, PartialEq, Eq)]
pub struct AccountData {
    pub slot: u64,
    pub write_version: u64,
    pub account: Account,
}

/// An [`AccountData`] as a value.
pub struct AccountDataView {
    pub slot: u64,
    pub write_version: u64,
    pub account: AccountView,
}

impl View for AccountData {
    type V = AccountDataView;

    open spec fn view(&self) -> AccountDataView {
        AccountDataView {
            slot: self.slot,
            write_version: self.write_version,
            account: self.account@,
        }
    }
}

/// A write to an account, as the ledger reports it. Of several writes to one account in one
/// slot, the one with the highest `write_version` is the last.
#[derive(Clone, Debug, PartialEq, Eq)]
pub struct AccountWrite {
    pub pubkey: Pubkey,
    pub slot: u64,
    pub write_version: u64,
    pub account: Account,
}

/// An [`AccountWrite`] as a value.
pub struct AccountWriteView {
    pub pubkey: Pubkey,
    pub slot: u64,
    pub write_version: u64,
    pub account: AccountView,
}

impl AccountWriteView {
    /// The version of the account that the write makes.
    pub open spec fn version(self) -> AccountDataView {
        AccountDataView {
            slot: self.slot,
            write_version: self.write_version,
            account: self.account,
        }
    }
}

impl View for AccountWrite {
    type V = AccountWriteView;

    open spec fn view(&self) -> AccountWriteView {
        AccountWriteView {
            pubkey: self.pubkey,
            slot: self.slot,
            write_version: self.write_version,
            account: self.account@,
        }
    }
}

/// A message of the live stream.
#[derive(Clone, Debug, PartialEq, Eq)]
pub enum Message {
    /// An account was written.
    Account(AccountWrite),
    /// A slot was created, or its status changed.
    Slot(SlotData),
    /// Anything else; it changes nothing.
    Other,
}

/// A [`Message`] as a value.
pub enum MessageView {
    Account(AccountWriteView),
    Slot(SlotData),
    Other,
}

impl View for Message {
    type V = MessageView;

    open spec fn view(&self) -> MessageView {
        match self {
            Message::Account(write) => MessageView::Account(write@),
            Message::Slot(update) => MessageView::Slot(*update),
            Message::Other => MessageView::Other,
        }
    }
}

/// One account of a snapshot.
#[derive(Clone, Debug, PartialEq, Eq)]
pub struct AccountSnapshotData {
    pub pubkey: Pubkey,
    pub account: Account,
}

/// The state of a set of accounts as of one slot.
#[derive(Clone, Debug, PartialEq, Eq)]
pub struct AccountSnapshot {
    pub slot: u64,
    pub accounts: Vec<AccountSnapshotData>,
}

/// One account as a query for accounts returned it: its address, and its state where that
/// could be decoded.
#[derive(Clone, Debug, PartialEq, Eq)]
pub struct RpcKeyedAccount {
    pub pubkey: Pubkey,
    pub account: Option<Account>,
}

/// The state of an account could not be decoded.
#[derive(Clone, Copy, Debug, PartialEq, Eq)]
pub struct DecodeError {
    pub pubkey: Pubkey,
}

impl AccountSnapshotData {
    /// The write that brings this account into a mirror, for a snapshot taken at `slot`.
    pub open spec fn as_write(&self, slot: u64) -> AccountWriteView {
        AccountWriteView { pubkey: self.pubkey, slot, write_version: 0, account: self.account@ }
    }
}

/// `i` is the first account whose state could not be decoded.
pub open spec fn first_undecoded(accounts: Seq<RpcKeyedAccount>, i: int) -> bool {
    &&& 0 <= i < accounts.len()
    &&& accounts[i].account is None
    &&& forall|j: int| 0 <= j < i ==> accounts[j].account is Some
}

impl AccountSnapshot {
    /// The snapshot that a query for accounts comes to: the accounts it returned, in order,
    /// as of the slot at which it was answered. There is no snapshot if the state of any
    /// account could not be decoded; the failure names the first such account.
    pub fn from_rpc(slot: u64, accounts: Vec<RpcKeyedAccount>) -> (snapshot: Result<
        AccountSnapshot,
        DecodeError,
    >)
        ensures
            match snapshot {
                Ok(s) => {
                    &&& s.slot == slot
                    &&& s.accounts@.len() == accounts@.len()
                    &&& forall|i: int|
                        0 <= i < accounts@.len() ==> accounts@[i].account == Some(
                            (#[trigger] s.accounts@[i]).account,
                        ) && s.accounts@[i].pubkey == accounts@[i].pubkey
                },
                Err(e) => exists|i: int| #[trigger]
                    first_undecoded(accounts@, i) && e.pubkey == accounts@[i].pubkey,
            },
    {
        let mut decoded: Vec<AccountSnapshotData> = Vec::new();
        for entry in it: accounts
            invariant
                decoded@.len() == it.index(),
                it.seq() == accounts@,
                forall|i: int|
                    0 <= i < decoded@.len() ==> accounts@[i].account == Some(
                        (#[trigger] decoded@[i]).account,
                    ) && decoded@[i].pubkey == accounts@[i].pubkey,
        {
            match entry.account {
                Some(account) => {
                    decoded.push(AccountSnapshotData { pubkey: entry.pubkey, account });
                },
                None => {
                    assert(entry == accounts@[decoded@.len() as int]);
                    assert forall|j: int| 0 <= j < decoded@.len() implies accounts@[j].account is Some by {
                        assert(accounts@[j].account == Some(decoded@[j].account));
                    }
                    assert(first_undecoded(accounts@, decoded@.len() as int));
                    return Err(DecodeError { pubkey: entry.pubkey });
                },
            }
        }
        Ok(AccountSnapshot { slot, accounts: decoded })
    }

    /// The writes that bring the snapshot into a mirror, in the snapshot's order.
    pub open spec fn writes(&self) -> Seq<AccountWriteView> {
        Seq::new(self.accounts@.len(), |i: int| self.accounts@[i].as_write(self.slot))
    }
}

} // verus!
