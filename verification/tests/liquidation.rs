use liquidation_monitor::account::{Account, AccountData};
use liquidation_monitor::chain_data::ChainData;
use liquidation_monitor::liquidation::{
    announcements, compute_liquidatable, evaluate, get_open_orders, handle_result,
    health_type_for, process_accounts, Evaluation, HealthQuery, HealthType, IsLiquidatable,
    LiquidatableInfo, Outcome, RoundError,
};
use liquidation_monitor::pubkey::Pubkey;
use liquidation_monitor::pubkey_set::PubkeySet;
use liquidation_monitor::records::{Layout, LoadError, RecordShape, OPEN_ORDERS_ACCOUNT_SIZE};
use serum_dex::state::OpenOrders;

const PROGRAM: u8 = 200;
const GROUP: u8 = 201;
const CACHE: u8 = 202;
const A: u8 = 1;
const B: u8 = 2;
const C: u8 = 3;

fn key(n: u8) -> Pubkey {
    Pubkey::new([n; 32])
}

fn layout() -> Layout {
    Layout {
        mango_group: RecordShape { data_type: 0, size: 16 },
        mango_account: RecordShape { data_type: 1, size: 108 },
        mango_cache: RecordShape { data_type: 7, size: 8 },
        num_oracles_offset: 8,
        mango_group_offset: 8,
        in_margin_basket_offset: 40,
        spot_open_orders_offset: 42,
        being_liquidated_offset: 106,
        max_pairs: 2,
    }
}

fn group_record(num_oracles: u64) -> Vec<u8> {
    let mut data = vec![0u8; 16];
    data[8..16].copy_from_slice(&num_oracles.to_le_bytes());
    data
}

/// A margin account whose last byte tells the stand-in health computation what to answer.
fn margin_account(health: i8) -> Vec<u8> {
    let mut data = vec![0u8; 108];
    data[0] = 1;
    data[8..40].copy_from_slice(&[GROUP; 32]);
    data[107] = health as u8;
    data
}

fn open_orders(fill: u8) -> Vec<u8> {
    let mut data = vec![fill; OPEN_ORDERS_ACCOUNT_SIZE];
    data[..5].copy_from_slice(b"serum");
    data
}

/// What stands in the first field of each record gathered.
fn flags(records: &[Option<&OpenOrders>]) -> Vec<Option<u64>> {
    records.iter().map(|record| record.map(|r| r.account_flags)).collect()
}

fn filled(fill: u8) -> u64 {
    u64::from_le_bytes([fill; 8])
}

/// Stands in for the health computation: the health is the account's last byte, read as a
/// signed number, and `-128` stands for a failure. Against the initial threshold the health
/// is 10 lower.
fn health(query: &HealthQuery) -> Result<i128, String> {
    let marker = query.account[107] as i8;
    if marker == i8::MIN {
        return Err(String::from("no price"));
    }
    let open = query.open_orders.iter().filter(|o| o.is_some()).count() as i128;
    match query.health_type {
        HealthType::Maint => Ok(marker as i128 + 100 * open),
        HealthType::Init => Ok(marker as i128 - 10 + 100 * open),
    }
}

fn put(chain_data: &mut ChainData, pubkey: u8, slot: u64, data: Vec<u8>) {
    chain_data.update_account(
        key(pubkey),
        AccountData { slot, write_version: 0, account: Account { owner: key(PROGRAM), data } },
    );
}

fn world() -> ChainData {
    let mut chain_data = ChainData::new();
    put(&mut chain_data, GROUP, 1, group_record(2));
    put(&mut chain_data, CACHE, 1, vec![7u8; 8]);
    chain_data
}

fn judged(being_liquidated: bool, health: i128) -> IsLiquidatable {
    IsLiquidatable { liquidatable: health < 0, being_liquidated, health }
}

fn events(outcomes: &[Outcome<String>]) -> Vec<Option<LiquidatableInfo>> {
    outcomes.iter().map(|o| o.event).collect()
}

fn round(
    chain_data: &ChainData,
    accounts: &[Pubkey],
    set: &mut PubkeySet,
) -> Result<Vec<Outcome<String>>, RoundError> {
    process_accounts(chain_data, &layout(), &key(GROUP), &key(CACHE), accounts, set, &health)
}

#[test]
fn a_negative_health_is_liquidatable() {
    assert_eq!(
        IsLiquidatable::new(-1, false),
        IsLiquidatable { liquidatable: true, being_liquidated: false, health: -1 }
    );
    assert_eq!(
        IsLiquidatable::new(0, true),
        IsLiquidatable { liquidatable: false, being_liquidated: true, health: 0 }
    );
    assert_eq!(
        IsLiquidatable::new(i128::MIN, true),
        IsLiquidatable { liquidatable: true, being_liquidated: true, health: i128::MIN }
    );
    assert!(!IsLiquidatable::new(i128::MAX, false).liquidatable);
}

#[test]
fn the_threshold_follows_being_liquidated() {
    assert_eq!(health_type_for(true), HealthType::Init);
    assert_eq!(health_type_for(false), HealthType::Maint);
}

#[test]
fn an_account_is_judged_against_the_maintenance_threshold() {
    let group = group_record(2);
    let cache = vec![7u8; 8];
    let account = margin_account(5);
    let result = compute_liquidatable(&group, &cache, &account, vec![None, None], &layout(), &health);
    assert_eq!(result, Ok(judged(false, 5)));
}

#[test]
fn an_account_being_liquidated_is_judged_against_the_initial_threshold() {
    let group = group_record(2);
    let cache = vec![7u8; 8];
    let mut account = margin_account(5);
    account[106] = 1;
    let result = compute_liquidatable(&group, &cache, &account, vec![None, None], &layout(), &health);
    assert_eq!(result, Ok(judged(true, -5)));
    assert!(result.unwrap().liquidatable);
}

#[test]
fn the_health_computation_is_asked_about_the_records_given() {
    let group = group_record(2);
    let cache = vec![7u8; 8];
    let account = margin_account(0);
    let orders = open_orders(3);
    let record: &OpenOrders = bytemuck::from_bytes(&orders[5..3221]);
    let asked = |query: &HealthQuery| -> Result<i128, String> {
        assert_eq!(query.group, &group[..]);
        assert_eq!(query.cache, &cache[..]);
        assert_eq!(query.account, &account[..]);
        assert_eq!(flags(&query.open_orders), vec![None, Some(filled(3))]);
        assert!(std::ptr::eq(query.open_orders[1].unwrap(), record));
        assert_eq!(query.health_type, HealthType::Maint);
        Ok(-7)
    };
    let result =
        compute_liquidatable(&group, &cache, &account, vec![None, Some(record)], &layout(), &asked);
    assert_eq!(result, Ok(judged(false, -7)));
}

#[test]
fn a_failure_of_the_health_computation_is_passed_on() {
    let group = group_record(2);
    let cache = vec![7u8; 8];
    let account = margin_account(i8::MIN);
    let result = compute_liquidatable(&group, &cache, &account, vec![None, None], &layout(), &health);
    assert_eq!(result, Err(String::from("no price")));
}

#[test]
fn a_newly_liquidatable_account_starts() {
    let mut set = PubkeySet::new();
    let result: Result<IsLiquidatable, String> = Ok(judged(false, -1));
    assert_eq!(
        handle_result(&key(A), &result, &mut set),
        Some(LiquidatableInfo::Start { account: key(A) })
    );
    assert!(set.contains(&key(A)));
}

#[test]
fn a_liquidatable_account_does_not_start_again() {
    let mut set = PubkeySet::new();
    set.insert(key(A));
    let result: Result<IsLiquidatable, String> = Ok(judged(false, -1));
    assert_eq!(handle_result(&key(A), &result, &mut set), None);
    assert!(set.contains(&key(A)));
    assert_eq!(set.len(), 1);
}

#[test]
fn a_recovered_account_stops() {
    let mut set = PubkeySet::new();
    set.insert(key(A));
    set.insert(key(B));
    let result: Result<IsLiquidatable, String> = Ok(judged(false, 0));
    assert_eq!(
        handle_result(&key(A), &result, &mut set),
        Some(LiquidatableInfo::Stop { account: key(A) })
    );
    assert!(!set.contains(&key(A)));
    assert!(set.contains(&key(B)));
}

#[test]
fn a_healthy_account_that_was_not_liquidatable_is_silent() {
    let mut set = PubkeySet::new();
    set.insert(key(B));
    let result: Result<IsLiquidatable, String> = Ok(judged(false, 3));
    assert_eq!(handle_result(&key(A), &result, &mut set), None);
    assert!(!set.contains(&key(A)));
    assert!(set.contains(&key(B)));
}

#[test]
fn a_failed_judgement_changes_nothing() {
    let failed: Result<IsLiquidatable, String> = Err(String::from("no price"));
    let mut set = PubkeySet::new();
    assert_eq!(handle_result(&key(A), &failed, &mut set), None);
    assert!(!set.contains(&key(A)));
    set.insert(key(A));
    assert_eq!(handle_result(&key(A), &failed, &mut set), None);
    assert!(set.contains(&key(A)));
}

#[test]
fn announcements_come_at_the_changes_of_sign() {
    let mut set = PubkeySet::new();
    let signs = [1i128, 1, -1, -1, 1, -1];
    let mut announced = Vec::new();
    for health in signs {
        let result: Result<IsLiquidatable, String> = Ok(judged(false, health));
        announced.push(handle_result(&key(A), &result, &mut set));
        assert_eq!(set.contains(&key(A)), health < 0);
    }
    assert_eq!(
        announced,
        vec![
            None,
            None,
            Some(LiquidatableInfo::Start { account: key(A) }),
            None,
            Some(LiquidatableInfo::Stop { account: key(A) }),
            Some(LiquidatableInfo::Start { account: key(A) }),
        ]
    );
}

#[test]
fn zero_health_is_not_liquidatable() {
    let mut set = PubkeySet::new();
    let mut chain_data = world();
    put(&mut chain_data, A, 2, margin_account(0));
    let outcomes = round(&chain_data, &[key(A)], &mut set).unwrap();
    assert_eq!(events(&outcomes), vec![None]);
    assert!(!set.contains(&key(A)));
}

#[test]
fn a_round_judges_every_account_in_order() {
    let mut chain_data = world();
    put(&mut chain_data, A, 2, margin_account(-1));
    put(&mut chain_data, B, 2, margin_account(4));
    put(&mut chain_data, C, 2, margin_account(-3));
    let mut set = PubkeySet::new();
    set.insert(key(B));
    let outcomes = round(&chain_data, &[key(A), key(B), key(C)], &mut set).unwrap();
    assert_eq!(outcomes.len(), 3);
    assert_eq!(outcomes[0].pubkey, key(A));
    assert_eq!(outcomes[1].pubkey, key(B));
    assert_eq!(outcomes[2].pubkey, key(C));
    assert_eq!(
        events(&outcomes),
        vec![
            Some(LiquidatableInfo::Start { account: key(A) }),
            Some(LiquidatableInfo::Stop { account: key(B) }),
            Some(LiquidatableInfo::Start { account: key(C) }),
        ]
    );
    assert_eq!(set.as_slice(), &[key(A), key(C)]);
    match &outcomes[1].evaluation {
        Evaluation::Computed(result) => assert_eq!(result, &Ok(judged(false, 4))),
        other => panic!("{:?}", other),
    }
    assert_eq!(
        announcements(&Ok(outcomes)),
        vec![
            LiquidatableInfo::Start { account: key(A) },
            LiquidatableInfo::Stop { account: key(B) },
            LiquidatableInfo::Start { account: key(C) },
        ]
    );
}

#[test]
fn a_failing_health_does_not_stop_the_round() {
    let mut chain_data = world();
    put(&mut chain_data, A, 2, margin_account(-1));
    put(&mut chain_data, B, 2, margin_account(i8::MIN));
    put(&mut chain_data, C, 2, margin_account(2));
    let mut set = PubkeySet::new();
    set.insert(key(B));
    set.insert(key(C));
    let outcomes = round(&chain_data, &[key(A), key(B), key(C)], &mut set).unwrap();
    assert_eq!(
        events(&outcomes),
        vec![
            Some(LiquidatableInfo::Start { account: key(A) }),
            None,
            Some(LiquidatableInfo::Stop { account: key(C) }),
        ]
    );
    match &outcomes[1].evaluation {
        Evaluation::Computed(result) => assert_eq!(result, &Err(String::from("no price"))),
        other => panic!("{:?}", other),
    }
    assert!(set.contains(&key(A)));
    assert!(set.contains(&key(B)));
    assert!(!set.contains(&key(C)));
}

#[test]
fn an_account_that_cannot_be_loaded_does_not_stop_the_round() {
    let mut chain_data = world();
    put(&mut chain_data, A, 2, margin_account(-1));
    put(&mut chain_data, C, 2, margin_account(-2));
    let mut set = PubkeySet::new();
    let outcomes = round(&chain_data, &[key(A), key(B), key(C)], &mut set).unwrap();
    assert_eq!(
        events(&outcomes),
        vec![
            Some(LiquidatableInfo::Start { account: key(A) }),
            None,
            Some(LiquidatableInfo::Start { account: key(C) }),
        ]
    );
    match &outcomes[1].evaluation {
        Evaluation::NotLoaded(e) => assert_eq!(*e, LoadError::NotFound { pubkey: key(B) }),
        other => panic!("{:?}", other),
    }
    assert_eq!(set.as_slice(), &[key(A), key(C)]);
}

#[test]
fn a_round_with_a_failure_is_the_round_without_it() {
    let mut chain_data = world();
    put(&mut chain_data, A, 2, margin_account(-1));
    put(&mut chain_data, B, 2, vec![1u8; 7]);
    put(&mut chain_data, C, 2, margin_account(7));
    let mut with = PubkeySet::new();
    with.insert(key(C));
    let mut without = PubkeySet::new();
    without.insert(key(C));
    let all = round(&chain_data, &[key(A), key(B), key(C)], &mut with).unwrap();
    let rest = round(&chain_data, &[key(A), key(C)], &mut without).unwrap();
    assert_eq!(events(&all), vec![events(&rest)[0], None, events(&rest)[1]]);
    assert_eq!(with.as_slice(), without.as_slice());
    match &all[1].evaluation {
        Evaluation::NotLoaded(e) => {
            assert_eq!(*e, LoadError::BadSize { data_type: 1, len: 7, expected: 108 })
        },
        other => panic!("{:?}", other),
    }
}

#[test]
fn a_round_without_the_group_fails_as_a_whole() {
    let mut chain_data = ChainData::new();
    put(&mut chain_data, CACHE, 1, vec![7u8; 8]);
    put(&mut chain_data, A, 2, margin_account(-1));
    let mut set = PubkeySet::new();
    match round(&chain_data, &[key(A)], &mut set) {
        Err(e) => assert_eq!(e, RoundError::Group(LoadError::NotFound { pubkey: key(GROUP) })),
        Ok(outcomes) => panic!("{:?}", outcomes),
    }
    assert_eq!(set.len(), 0);
}

#[test]
fn a_round_without_the_cache_fails_as_a_whole() {
    let mut chain_data = ChainData::new();
    put(&mut chain_data, GROUP, 1, group_record(2));
    put(&mut chain_data, CACHE, 1, vec![7u8; 9]);
    put(&mut chain_data, A, 2, margin_account(-1));
    let mut set = PubkeySet::new();
    set.insert(key(A));
    let result = round(&chain_data, &[key(A)], &mut set);
    match &result {
        Err(e) => assert_eq!(
            *e,
            RoundError::Cache(LoadError::BadSize { data_type: 7, len: 9, expected: 8 })
        ),
        Ok(outcomes) => panic!("{:?}", outcomes),
    }
    assert_eq!(announcements(&result), vec![]);
    assert_eq!(set.as_slice(), &[key(A)]);
}

#[test]
fn the_group_is_tried_before_the_cache() {
    let chain_data = ChainData::new();
    let mut set = PubkeySet::new();
    match round(&chain_data, &[], &mut set) {
        Err(e) => assert_eq!(e, RoundError::Group(LoadError::NotFound { pubkey: key(GROUP) })),
        Ok(outcomes) => panic!("{:?}", outcomes),
    }
}

#[test]
fn a_round_over_no_accounts_is_empty() {
    let chain_data = world();
    let mut set = PubkeySet::new();
    assert_eq!(round(&chain_data, &[], &mut set).unwrap().len(), 0);
}

#[test]
fn an_account_twice_in_a_round_is_announced_once() {
    let mut chain_data = world();
    put(&mut chain_data, A, 2, margin_account(-1));
    let mut set = PubkeySet::new();
    let outcomes = round(&chain_data, &[key(A), key(A)], &mut set).unwrap();
    assert_eq!(events(&outcomes), vec![Some(LiquidatableInfo::Start { account: key(A) }), None]);
}

#[test]
fn open_orders_are_gathered_for_the_markets_in_the_basket() {
    let mut chain_data = world();
    put(&mut chain_data, 50, 2, open_orders(3));
    put(&mut chain_data, 51, 2, open_orders(4));
    let mut account = margin_account(0);
    account[41] = 1;
    account[42..74].copy_from_slice(&[50u8; 32]);
    account[74..106].copy_from_slice(&[51u8; 32]);
    let records = get_open_orders(&chain_data, &group_record(2), &account, &layout()).ok().unwrap();
    assert_eq!(flags(&records), vec![None, Some(filled(4))]);
    account[40] = 1;
    let records = get_open_orders(&chain_data, &group_record(2), &account, &layout()).ok().unwrap();
    assert_eq!(flags(&records), vec![Some(filled(3)), Some(filled(4))]);
}

#[test]
fn markets_beyond_the_oracles_of_the_group_are_left_out() {
    let mut chain_data = world();
    put(&mut chain_data, 50, 2, open_orders(3));
    let mut account = margin_account(0);
    account[40] = 1;
    account[41] = 1;
    account[42..74].copy_from_slice(&[50u8; 32]);
    account[74..106].copy_from_slice(&[51u8; 32]);
    let records = get_open_orders(&chain_data, &group_record(1), &account, &layout()).ok().unwrap();
    assert_eq!(flags(&records), vec![Some(filled(3)), None]);
    let records = get_open_orders(&chain_data, &group_record(0), &account, &layout()).ok().unwrap();
    assert_eq!(flags(&records), vec![None, None]);
}

#[test]
fn a_missing_open_orders_account_fails_the_gathering() {
    let mut chain_data = world();
    put(&mut chain_data, 51, 2, open_orders(4));
    let mut account = margin_account(0);
    account[40] = 1;
    account[41] = 1;
    account[42..74].copy_from_slice(&[50u8; 32]);
    account[74..106].copy_from_slice(&[51u8; 32]);
    assert_eq!(
        get_open_orders(&chain_data, &group_record(2), &account, &layout()).err(),
        Some(LoadError::NotFound { pubkey: key(50) })
    );
    put(&mut chain_data, 50, 2, vec![0u8; 3228]);
    assert_eq!(
        get_open_orders(&chain_data, &group_record(2), &account, &layout()).err(),
        Some(LoadError::BadOpenOrdersPrefix)
    );
    put(&mut chain_data, 50, 3, vec![0u8; 10]);
    assert_eq!(
        get_open_orders(&chain_data, &group_record(2), &account, &layout()).err(),
        Some(LoadError::BadOpenOrdersSize { len: 10, expected: 3228 })
    );
}

#[test]
fn a_group_with_too_many_oracles_fails_the_gathering() {
    let chain_data = world();
    let account = margin_account(0);
    assert_eq!(
        get_open_orders(&chain_data, &group_record(3), &account, &layout()).err(),
        Some(LoadError::TooManyOracles { num_oracles: 3, max_pairs: 2 })
    );
}

#[test]
fn open_orders_count_towards_the_health() {
    let mut chain_data = world();
    put(&mut chain_data, 50, 2, open_orders(3));
    let mut account = margin_account(-20);
    account[40] = 1;
    account[42..74].copy_from_slice(&[50u8; 32]);
    put(&mut chain_data, A, 2, account);
    let group = group_record(2);
    let cache = vec![7u8; 8];
    match evaluate(&chain_data, &layout(), &group, &cache, &key(A), &health) {
        Evaluation::Computed(result) => assert_eq!(result, Ok(judged(false, 80))),
        other => panic!("{:?}", other),
    }
}

#[test]
fn an_account_with_missing_open_orders_is_not_judged() {
    let mut chain_data = world();
    let mut account = margin_account(-20);
    account[40] = 1;
    account[42..74].copy_from_slice(&[50u8; 32]);
    put(&mut chain_data, A, 2, account);
    put(&mut chain_data, B, 2, margin_account(-1));
    let mut set = PubkeySet::new();
    let outcomes = round(&chain_data, &[key(A), key(B)], &mut set).unwrap();
    match &outcomes[0].evaluation {
        Evaluation::NotLoaded(e) => assert_eq!(*e, LoadError::NotFound { pubkey: key(50) }),
        other => panic!("{:?}", other),
    }
    assert_eq!(events(&outcomes), vec![None, Some(LiquidatableInfo::Start { account: key(B) })]);
    assert_eq!(set.as_slice(), &[key(B)]);
}
