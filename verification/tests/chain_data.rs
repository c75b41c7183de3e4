use liquidation_monitor::account::{
    Account, AccountData, AccountSnapshot, AccountSnapshotData, AccountWrite, Message, SlotData,
    SlotStatus,
};
use liquidation_monitor::chain_data::{ChainData, NotFound};
use liquidation_monitor::pubkey::Pubkey;

fn key(n: u8) -> Pubkey {
    Pubkey::new([n; 32])
}

fn account(owner: u8, data: &[u8]) -> Account {
    Account { owner: key(owner), data: data.to_vec() }
}

fn version(slot: u64, write_version: u64, data: &[u8]) -> AccountData {
    AccountData { slot, write_version, account: account(9, data) }
}

fn report(slot: u64, parent: Option<u64>, status: SlotStatus) -> SlotData {
    SlotData { slot, parent, status }
}

fn snapshot(slot: u64, accounts: &[(u8, &[u8])]) -> AccountSnapshot {
    AccountSnapshot {
        slot,
        accounts: accounts
            .iter()
            .map(|(k, data)| AccountSnapshotData { pubkey: key(*k), account: account(9, data) })
            .collect(),
    }
}

#[test]
fn unseen_account_is_not_found() {
    let chain_data = ChainData::new();
    assert_eq!(chain_data.lookup(&key(1)), None);
    assert_eq!(chain_data.account(&key(1)), Err(NotFound { pubkey: key(1) }));
}

#[test]
fn unseen_account_stays_not_found_beside_others() {
    let mut chain_data = ChainData::new();
    chain_data.update_account(key(1), version(3, 0, b"a"));
    assert_eq!(chain_data.lookup(&key(2)), None);
    assert_eq!(chain_data.account(&key(1)), Ok(&account(9, b"a")));
}

#[test]
fn without_settled_slots_the_latest_slot_answers() {
    let mut chain_data = ChainData::new();
    chain_data.update_account(key(1), version(10, 0, b"ten"));
    chain_data.update_account(key(1), version(12, 0, b"twelve"));
    chain_data.update_account(key(1), version(11, 0, b"eleven"));
    assert_eq!(chain_data.lookup(&key(1)), Some(&version(12, 0, b"twelve")));
}

#[test]
fn a_confirmed_slot_is_preferred_to_a_later_processed_one() {
    let mut chain_data = ChainData::new();
    chain_data.update_account(key(1), version(10, 0, b"ten"));
    chain_data.update_account(key(1), version(12, 0, b"twelve"));
    chain_data.update_slot(report(10, Some(9), SlotStatus::Processed));
    chain_data.update_slot(report(12, Some(10), SlotStatus::Processed));
    assert_eq!(chain_data.lookup(&key(1)), Some(&version(12, 0, b"twelve")));
    chain_data.update_slot(report(10, None, SlotStatus::Confirmed));
    assert_eq!(chain_data.lookup(&key(1)), Some(&version(10, 0, b"ten")));
}

#[test]
fn among_settled_slots_the_latest_answers() {
    let mut chain_data = ChainData::new();
    chain_data.update_account(key(1), version(10, 0, b"ten"));
    chain_data.update_account(key(1), version(11, 0, b"eleven"));
    chain_data.update_account(key(1), version(12, 0, b"twelve"));
    chain_data.update_slot(report(10, None, SlotStatus::Rooted));
    chain_data.update_slot(report(11, None, SlotStatus::Confirmed));
    assert_eq!(chain_data.lookup(&key(1)), Some(&version(11, 0, b"eleven")));
}

#[test]
fn a_slot_report_changes_the_answer_without_a_write() {
    let mut chain_data = ChainData::new();
    chain_data.update_account(key(1), version(10, 0, b"ten"));
    chain_data.update_account(key(1), version(11, 0, b"eleven"));
    chain_data.update_slot(report(10, None, SlotStatus::Confirmed));
    assert_eq!(chain_data.lookup(&key(1)), Some(&version(10, 0, b"ten")));
    chain_data.update_slot(report(11, None, SlotStatus::Confirmed));
    assert_eq!(chain_data.lookup(&key(1)), Some(&version(11, 0, b"eleven")));
}

#[test]
fn rooted_answer_survives_an_earlier_write() {
    let mut chain_data = ChainData::new();
    chain_data.update_account(key(1), version(10, 0, b"ten"));
    chain_data.update_slot(report(10, None, SlotStatus::Rooted));
    assert_eq!(chain_data.lookup(&key(1)), Some(&version(10, 0, b"ten")));
    chain_data.update_account(key(1), version(5, 7, b"five"));
    assert_eq!(chain_data.lookup(&key(1)), Some(&version(10, 0, b"ten")));
    chain_data.update_account(key(1), version(9, 0, b"nine"));
    assert_eq!(chain_data.lookup(&key(1)), Some(&version(10, 0, b"ten")));
}

#[test]
fn rooted_answer_survives_a_report_on_an_earlier_slot() {
    let mut chain_data = ChainData::new();
    chain_data.update_account(key(1), version(5, 0, b"five"));
    chain_data.update_account(key(1), version(10, 0, b"ten"));
    chain_data.update_slot(report(10, None, SlotStatus::Rooted));
    chain_data.update_slot(report(5, None, SlotStatus::Rooted));
    assert_eq!(chain_data.lookup(&key(1)), Some(&version(10, 0, b"ten")));
    chain_data.update_slot(report(7, Some(5), SlotStatus::Confirmed));
    assert_eq!(chain_data.lookup(&key(1)), Some(&version(10, 0, b"ten")));
}

#[test]
fn an_earlier_settled_write_does_displace_an_unsettled_answer() {
    let mut chain_data = ChainData::new();
    chain_data.update_slot(report(5, None, SlotStatus::Confirmed));
    chain_data.update_account(key(1), version(10, 0, b"ten"));
    assert_eq!(chain_data.lookup(&key(1)), Some(&version(10, 0, b"ten")));
    chain_data.update_account(key(1), version(5, 0, b"five"));
    assert_eq!(chain_data.lookup(&key(1)), Some(&version(5, 0, b"five")));
}

#[test]
fn higher_write_version_prevails_in_one_slot() {
    let mut chain_data = ChainData::new();
    chain_data.update_account(key(1), version(10, 1, b"first"));
    chain_data.update_account(key(1), version(10, 2, b"second"));
    assert_eq!(chain_data.lookup(&key(1)), Some(&version(10, 2, b"second")));
}

#[test]
fn higher_write_version_prevails_when_it_comes_first() {
    let mut chain_data = ChainData::new();
    chain_data.update_account(key(1), version(10, 2, b"second"));
    chain_data.update_account(key(1), version(10, 1, b"first"));
    assert_eq!(chain_data.lookup(&key(1)), Some(&version(10, 2, b"second")));
}

#[test]
fn of_equal_write_versions_the_one_held_stays() {
    let mut chain_data = ChainData::new();
    chain_data.update_account(key(1), version(10, 3, b"held"));
    chain_data.update_account(key(1), version(10, 3, b"late"));
    assert_eq!(chain_data.lookup(&key(1)), Some(&version(10, 3, b"held")));
}

#[test]
fn a_status_only_advances() {
    let mut chain_data = ChainData::new();
    chain_data.update_slot(report(10, None, SlotStatus::Rooted));
    chain_data.update_slot(report(10, Some(9), SlotStatus::Processed));
    assert_eq!(chain_data.slot(10), Some(report(10, Some(9), SlotStatus::Rooted)));
    chain_data.update_slot(report(10, Some(8), SlotStatus::Confirmed));
    assert_eq!(chain_data.slot(10), Some(report(10, Some(9), SlotStatus::Rooted)));
    assert_eq!(chain_data.slot(11), None);
}

#[test]
fn a_status_advances_step_by_step() {
    let mut chain_data = ChainData::new();
    chain_data.update_slot(report(4, Some(3), SlotStatus::Processed));
    assert_eq!(chain_data.slot(4), Some(report(4, Some(3), SlotStatus::Processed)));
    chain_data.update_slot(report(4, None, SlotStatus::Confirmed));
    assert_eq!(chain_data.slot(4), Some(report(4, Some(3), SlotStatus::Confirmed)));
    chain_data.update_slot(report(4, None, SlotStatus::Rooted));
    assert_eq!(chain_data.slot(4), Some(report(4, Some(3), SlotStatus::Rooted)));
}

#[test]
fn pruning_keeps_the_answer_and_what_may_follow_it() {
    let mut chain_data = ChainData::new();
    chain_data.update_account(key(1), version(8, 0, b"eight"));
    chain_data.update_account(key(1), version(9, 0, b"nine"));
    chain_data.update_account(key(1), version(10, 0, b"ten"));
    chain_data.update_account(key(1), version(11, 0, b"eleven"));
    chain_data.update_slot(report(9, None, SlotStatus::Confirmed));
    chain_data.update_slot(report(10, None, SlotStatus::Rooted));
    assert_eq!(chain_data.lookup(&key(1)), Some(&version(10, 0, b"ten")));
    chain_data.update_slot(report(11, None, SlotStatus::Confirmed));
    assert_eq!(chain_data.lookup(&key(1)), Some(&version(11, 0, b"eleven")));
}

#[test]
fn pruning_without_settled_versions_drops_nothing() {
    let mut chain_data = ChainData::new();
    chain_data.update_account(key(1), version(8, 0, b"eight"));
    chain_data.update_account(key(1), version(9, 0, b"nine"));
    chain_data.update_slot(report(3, None, SlotStatus::Rooted));
    assert_eq!(chain_data.lookup(&key(1)), Some(&version(9, 0, b"nine")));
    chain_data.update_slot(report(8, None, SlotStatus::Confirmed));
    assert_eq!(chain_data.lookup(&key(1)), Some(&version(8, 0, b"eight")));
}

#[test]
fn a_snapshot_comes_in_as_writes_at_its_slot() {
    let mut chain_data = ChainData::new();
    chain_data.update_from_snapshot(snapshot(20, &[(1, b"one"), (2, b"two")]));
    assert_eq!(chain_data.lookup(&key(1)), Some(&version(20, 0, b"one")));
    assert_eq!(chain_data.lookup(&key(2)), Some(&version(20, 0, b"two")));
    assert_eq!(chain_data.lookup(&key(3)), None);
}

#[test]
fn a_snapshot_yields_to_a_write_of_its_slot() {
    let mut chain_data = ChainData::new();
    chain_data.update_account(key(1), version(20, 4, b"written"));
    chain_data.update_from_snapshot(snapshot(20, &[(1, b"snapped")]));
    assert_eq!(chain_data.lookup(&key(1)), Some(&version(20, 4, b"written")));
}

#[test]
fn of_two_entries_for_one_account_the_first_stays() {
    let mut chain_data = ChainData::new();
    chain_data.update_from_snapshot(snapshot(20, &[(1, b"first"), (1, b"second")]));
    assert_eq!(chain_data.lookup(&key(1)), Some(&version(20, 0, b"first")));
}

#[test]
fn merging_a_snapshot_twice_is_merging_it_once() {
    let accounts: [(u8, &[u8]); 3] = [(1, b"one"), (2, b"two"), (1, b"again")];
    let mut once = ChainData::new();
    once.update_account(key(1), version(25, 0, b"later"));
    once.update_account(key(2), version(15, 0, b"earlier"));
    once.update_slot(report(15, None, SlotStatus::Confirmed));
    once.update_from_snapshot(snapshot(20, &accounts));

    let mut twice = ChainData::new();
    twice.update_account(key(1), version(25, 0, b"later"));
    twice.update_account(key(2), version(15, 0, b"earlier"));
    twice.update_slot(report(15, None, SlotStatus::Confirmed));
    twice.update_from_snapshot(snapshot(20, &accounts));
    twice.update_from_snapshot(snapshot(20, &accounts));

    for k in 0..4u8 {
        assert_eq!(once.lookup(&key(k)), twice.lookup(&key(k)));
    }
    assert_eq!(twice.lookup(&key(1)), Some(&version(25, 0, b"later")));
    assert_eq!(twice.lookup(&key(2)), Some(&version(15, 0, b"earlier")));
}

#[test]
fn messages_of_the_stream_reach_the_mirror() {
    let mut chain_data = ChainData::new();
    chain_data.update_from_websocket(Message::Account(AccountWrite {
        pubkey: key(1),
        slot: 10,
        write_version: 1,
        account: account(9, b"ten"),
    }));
    chain_data.update_from_websocket(Message::Account(AccountWrite {
        pubkey: key(1),
        slot: 11,
        write_version: 1,
        account: account(9, b"eleven"),
    }));
    assert_eq!(chain_data.lookup(&key(1)), Some(&version(11, 1, b"eleven")));
    chain_data.update_from_websocket(Message::Slot(report(10, None, SlotStatus::Rooted)));
    assert_eq!(chain_data.lookup(&key(1)), Some(&version(10, 1, b"ten")));
    chain_data.update_from_websocket(Message::Other);
    assert_eq!(chain_data.lookup(&key(1)), Some(&version(10, 1, b"ten")));
    assert_eq!(chain_data.slot(10), Some(report(10, None, SlotStatus::Rooted)));
}

#[test]
fn undecodable_data_is_answered_as_it_is() {
    let mut chain_data = ChainData::new();
    chain_data.update_account(key(1), version(1, 0, &[]));
    assert_eq!(chain_data.account(&key(1)), Ok(&account(9, &[])));
}

#[test]
fn statuses_are_ordered() {
    assert!(!SlotStatus::Processed.is_settled());
    assert!(SlotStatus::Confirmed.is_settled());
    assert!(SlotStatus::Rooted.is_settled());
    assert_eq!(SlotStatus::Processed.later(SlotStatus::Confirmed), SlotStatus::Confirmed);
    assert_eq!(SlotStatus::Rooted.later(SlotStatus::Confirmed), SlotStatus::Rooted);
    assert_eq!(SlotStatus::Confirmed.later(SlotStatus::Processed), SlotStatus::Confirmed);
    assert_eq!(SlotStatus::Processed.later(SlotStatus::Processed), SlotStatus::Processed);
}

#[test]
fn many_accounts_are_kept_apart() {
    let mut chain_data = ChainData::new();
    for i in 0..300u32 {
        let mut bytes = [0u8; 32];
        bytes[..4].copy_from_slice(&(i % 7).to_le_bytes());
        bytes[28..].copy_from_slice(&i.to_le_bytes());
        chain_data.update_account(Pubkey::new(bytes), version(5, 0, &i.to_le_bytes()));
        chain_data.update_account(Pubkey::new(bytes), version(9, 0, &(i + 1000).to_le_bytes()));
    }
    chain_data.update_slot(report(5, None, SlotStatus::Rooted));
    for i in 0..300u32 {
        let mut bytes = [0u8; 32];
        bytes[..4].copy_from_slice(&(i % 7).to_le_bytes());
        bytes[28..].copy_from_slice(&i.to_le_bytes());
        assert_eq!(chain_data.lookup(&Pubkey::new(bytes)), Some(&version(5, 0, &i.to_le_bytes())));
    }
    chain_data.update_slot(report(9, None, SlotStatus::Rooted));
    for i in 0..300u32 {
        let mut bytes = [0u8; 32];
        bytes[..4].copy_from_slice(&(i % 7).to_le_bytes());
        bytes[28..].copy_from_slice(&i.to_le_bytes());
        assert_eq!(
            chain_data.lookup(&Pubkey::new(bytes)),
            Some(&version(9, 0, &(i + 1000).to_le_bytes()))
        );
    }
}
