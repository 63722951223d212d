use choice_farm::contract::{
    assert_new_schedules, bond, compute_reward, compute_staker_reward, execute, instantiate,
    migrate_staking, query_config, query_staker_info, query_state, receive_cw20, unbond,
    update_config, withdraw,
};
use choice_farm::msg::{
    Coin, Cw20HookMsg, Cw20ReceiveMsg, ExecuteMsg, InstantiateMsg, MessageInfo, Response, Transfer,
};
use choice_farm::state::{
    read_config, read_staker_info, read_state, remove_staker_info, store_config,
    store_staker_info, store_state, AssetInfo, Config, StakerInfo, State, Store,
};
use choice_farm::{ContractError, DECIMAL_FRACTIONAL};

fn reward() -> AssetInfo {
    AssetInfo::Token { contract_addr: "reward0000".to_string() }
}

fn staking_token() -> AssetInfo {
    AssetInfo::Token { contract_addr: "staking0000".to_string() }
}

fn caller(name: &str) -> MessageInfo {
    MessageInfo { sender: name.to_string(), sender_raw: name.as_bytes().to_vec(), funds: vec![] }
}

fn farm(now: u64, schedule: Vec<(u64, u64, u128)>) -> Store {
    instantiate(
        now,
        &caller("owner0000"),
        InstantiateMsg {
            reward_token: reward(),
            staking_token: staking_token(),
            distribution_schedule: schedule,
        },
    )
}

fn bonded_sum(store: &Store, names: &[&str]) -> u128 {
    names.iter().map(|n| read_staker_info(store, &n.as_bytes().to_vec()).bond_amount).sum()
}

#[test]
fn instantiate_starts_empty() {
    let store = farm(10, vec![(0, 100, 1000)]);
    assert_eq!(
        read_state(&store),
        State { last_distributed: 10, total_bond_amount: 0, global_reward_index: 0 }
    );
    assert_eq!(read_config(&store).owner, b"owner0000".to_vec());
    assert_eq!(read_config(&store).distribution_schedule, vec![(0, 100, 1000)]);
}

#[test]
fn reward_settlement_scenario() {
    let mut store = farm(0, vec![(0, 100, 1000)]);
    let a = caller("addr0000");
    bond(&mut store, 0, &a.sender_raw, 100).unwrap();
    let state = query_state(&store, Some(50)).unwrap();
    assert_eq!(state.global_reward_index, 5 * DECIMAL_FRACTIONAL);
    assert_eq!(state.last_distributed, 50);
    let paid = withdraw(&mut store, 50, &a).unwrap();
    assert_eq!(
        paid,
        Transfer { recipient: "addr0000".to_string(), asset: reward(), amount: 500 }
    );
    let info = read_staker_info(&store, &a.sender_raw);
    assert_eq!(info.pending_reward, 0);
    assert_eq!(info.bond_amount, 100);
    assert_eq!(info.reward_index, 5 * DECIMAL_FRACTIONAL);
}

#[test]
fn schedule_split_on_migration() {
    let mut store = farm(0, vec![(0, 100, 1000)]);
    let m = migrate_staking(&mut store, 40, &caller("owner0000"), "successor0000".to_string())
        .unwrap();
    assert_eq!(m.distributed_amount, 400);
    assert_eq!(
        m.transfer,
        Transfer { recipient: "successor0000".to_string(), asset: reward(), amount: 600 }
    );
    assert_eq!(read_config(&store).distribution_schedule, vec![(0, 40, 400)]);
    assert_eq!(read_state(&store).last_distributed, 40);
}

#[test]
fn migration_keeps_ended_slots_and_drops_future_ones() {
    let mut store = farm(0, vec![(0, 10, 100), (5, 15, 30), (50, 60, 7)]);
    let m = migrate_staking(&mut store, 12, &caller("owner0000"), "next".to_string()).unwrap();
    // (0,10,100) ended; (5,15,30) cut at 12: floor(7 * 30 / 10) = 21; (50,60,7) dropped
    assert_eq!(read_config(&store).distribution_schedule, vec![(0, 10, 100), (5, 12, 21)]);
    assert_eq!(m.distributed_amount, 121);
    assert_eq!(m.transfer.amount, 137 - 121);
}

#[test]
fn migration_by_non_owner_is_refused() {
    let mut store = farm(0, vec![(0, 100, 1000)]);
    let r = migrate_staking(&mut store, 40, &caller("addr0001"), "next".to_string());
    assert_eq!(r, Err(ContractError::Unauthorized));
    assert_eq!(read_config(&store).distribution_schedule, vec![(0, 100, 1000)]);
}

#[test]
fn update_rejects_removing_started_slot() {
    let mut store = farm(10, vec![(0, 100, 1000)]);
    let owner = caller("owner0000");
    let r = update_config(&mut store, &owner, vec![(0, 100, 999)]);
    assert_eq!(r, Err(ContractError::RemovesStartedDistribution));
    let r = update_config(&mut store, &owner, vec![(20, 100, 1000)]);
    assert_eq!(r, Err(ContractError::RemovesStartedDistribution));
    assert_eq!(read_config(&store).distribution_schedule, vec![(0, 100, 1000)]);
}

#[test]
fn update_rejects_fewer_copies_of_started_slot() {
    let mut store = farm(10, vec![(0, 100, 1000), (0, 100, 1000)]);
    let r = update_config(&mut store, &caller("owner0000"), vec![(0, 100, 1000), (20, 30, 5)]);
    assert_eq!(r, Err(ContractError::RemovesStartedDistribution));
}

#[test]
fn update_rejects_shorter_schedule() {
    let mut store = farm(10, vec![(0, 100, 1000), (200, 300, 5)]);
    let r = update_config(&mut store, &caller("owner0000"), vec![(0, 100, 1000)]);
    assert_eq!(r, Err(ContractError::ScheduleTooShort));
}

#[test]
fn update_rejects_adding_started_slot() {
    let mut store = farm(10, vec![(0, 100, 1000)]);
    let r = update_config(&mut store, &caller("owner0000"), vec![(0, 100, 1000), (5, 50, 10)]);
    assert_eq!(r, Err(ContractError::AddsStartedDistribution));
}

#[test]
fn update_accepts_changes_to_future_slots() {
    let mut store = farm(10, vec![(0, 100, 1000), (200, 300, 5)]);
    let new = vec![(0, 100, 1000), (250, 300, 50), (400, 500, 1)];
    update_config(&mut store, &caller("owner0000"), new.clone()).unwrap();
    assert_eq!(read_config(&store).distribution_schedule, new);
}

#[test]
fn update_by_non_owner_is_refused() {
    let mut store = farm(10, vec![(0, 100, 1000)]);
    let r = update_config(&mut store, &caller("addr0001"), vec![(0, 100, 1000)]);
    assert_eq!(r, Err(ContractError::Unauthorized));
}

#[test]
fn assert_new_schedules_counts_duplicates() {
    let config = Config {
        owner: vec![1],
        reward_token: reward(),
        staking_token: staking_token(),
        distribution_schedule: vec![(0, 100, 1000), (0, 100, 1000)],
    };
    let state = State { last_distributed: 10, total_bond_amount: 0, global_reward_index: 0 };
    assert_eq!(
        assert_new_schedules(&config, &state, vec![(0, 100, 1000), (0, 100, 1000)]),
        Ok(())
    );
    assert_eq!(
        assert_new_schedules(&config, &state, vec![(0, 100, 1000), (0, 100, 1000), (0, 100, 1000)]),
        Err(ContractError::AddsStartedDistribution)
    );
}

#[test]
fn unbond_to_zero_removes_record() {
    let mut store = farm(0, vec![(500, 600, 1000)]);
    let a = caller("addr0000");
    bond(&mut store, 0, &a.sender_raw, 100).unwrap();
    let t = unbond(&mut store, 10, &a, 100).unwrap();
    assert_eq!(
        t,
        Transfer { recipient: "addr0000".to_string(), asset: staking_token(), amount: 100 }
    );
    assert_eq!(
        read_staker_info(&store, &a.sender_raw),
        StakerInfo { reward_index: 0, bond_amount: 0, pending_reward: 0 }
    );
    assert_eq!(
        query_staker_info(&store, &a.sender_raw, None),
        Ok(StakerInfo { reward_index: 0, bond_amount: 0, pending_reward: 0 })
    );
}

#[test]
fn unbond_keeps_record_with_pending_reward() {
    let mut store = farm(0, vec![(0, 100, 1000)]);
    let a = caller("addr0000");
    bond(&mut store, 0, &a.sender_raw, 100).unwrap();
    unbond(&mut store, 10, &a, 100).unwrap();
    let info = read_staker_info(&store, &a.sender_raw);
    assert_eq!(info.bond_amount, 0);
    assert_eq!(info.pending_reward, 100);
    assert_eq!(read_state(&store).total_bond_amount, 0);
}

#[test]
fn unbond_more_than_bonded_is_refused() {
    let mut store = farm(0, vec![(0, 100, 1000)]);
    let a = caller("addr0000");
    bond(&mut store, 0, &a.sender_raw, 100).unwrap();
    assert_eq!(unbond(&mut store, 10, &a, 101), Err(ContractError::InsufficientBondAmount));
    assert_eq!(read_state(&store).last_distributed, 0);
}

#[test]
fn zero_stake_accrual_moves_only_time() {
    let store = farm(0, vec![(0, 100, 1000)]);
    let s = query_state(&store, Some(50)).unwrap();
    assert_eq!(s, State { last_distributed: 50, total_bond_amount: 0, global_reward_index: 0 });
}

#[test]
fn zero_stake_compute_reward_forfeits_emission() {
    let mut store = farm(0, vec![(0, 100, 1000)]);
    let a = caller("addr0000");
    bond(&mut store, 50, &a.sender_raw, 100).unwrap();
    let s = query_state(&store, Some(60)).unwrap();
    assert_eq!(s.global_reward_index, DECIMAL_FRACTIONAL);
}

#[test]
fn state_query_is_idempotent_and_saves_nothing() {
    let mut store = farm(0, vec![(0, 100, 1000)]);
    bond(&mut store, 0, &b"addr0000".to_vec(), 100).unwrap();
    let before = read_state(&store);
    let first = query_state(&store, Some(70));
    let second = query_state(&store, Some(70));
    assert_eq!(first, second);
    assert_eq!(read_state(&store), before);
    assert_eq!(query_state(&store, None), Ok(before));
}

#[test]
fn total_bond_matches_records() {
    let mut store = farm(0, vec![(0, 100, 1000), (20, 80, 600)]);
    let names = ["addr0000", "addr0001", "addr0002"];
    bond(&mut store, 0, &names[0].as_bytes().to_vec(), 100).unwrap();
    bond(&mut store, 5, &names[1].as_bytes().to_vec(), 300).unwrap();
    bond(&mut store, 9, &names[0].as_bytes().to_vec(), 50).unwrap();
    unbond(&mut store, 30, &caller(names[1]), 120).unwrap();
    bond(&mut store, 31, &names[2].as_bytes().to_vec(), 7).unwrap();
    unbond(&mut store, 40, &caller(names[0]), 150).unwrap();
    assert_eq!(read_state(&store).total_bond_amount, bonded_sum(&store, &names));
    assert_eq!(read_state(&store).total_bond_amount, 187);
}

#[test]
fn index_and_time_never_move_back() {
    let mut store = farm(0, vec![(0, 100, 1000), (30, 60, 90)]);
    let a = caller("addr0000");
    let mut last = read_state(&store);
    for (t, amount) in [(0u64, 10u128), (10, 20), (35, 5), (70, 1), (120, 3)] {
        bond(&mut store, t, &a.sender_raw, amount).unwrap();
        let s = read_state(&store);
        assert!(s.global_reward_index >= last.global_reward_index);
        assert!(s.last_distributed >= last.last_distributed);
        last = s;
    }
    withdraw(&mut store, 130, &a).unwrap();
    assert!(read_state(&store).global_reward_index >= last.global_reward_index);
}

#[test]
fn uneven_rates_floor_once_per_slot() {
    let mut store = farm(0, vec![(0, 3, 10)]);
    let a = caller("addr0000");
    bond(&mut store, 0, &a.sender_raw, 7).unwrap();
    // one second of a 10-over-3-seconds slot: floor(10 / 3) = 3, shared by 7 units
    let s = query_state(&store, Some(1)).unwrap();
    assert_eq!(s.global_reward_index, 428_571_428_571_428_571);
    // 7 * 0.428571428571428571, floored
    let info = query_staker_info(&store, &a.sender_raw, Some(1)).unwrap();
    assert_eq!(info.pending_reward, 2);
    assert_eq!(info.reward_index, 428_571_428_571_428_571);
    // two seconds: floor(2 * 10 / 3) = 6, not 2 * floor(10 / 3)
    let s = query_state(&store, Some(2)).unwrap();
    assert_eq!(s.global_reward_index, 857_142_857_142_857_142);
}

#[test]
fn compute_reward_sums_overlapping_slots() {
    let config = Config {
        owner: vec![1],
        reward_token: reward(),
        staking_token: staking_token(),
        distribution_schedule: vec![(0, 100, 1000), (50, 150, 2000), (200, 300, 5)],
    };
    let mut state = State { last_distributed: 40, total_bond_amount: 10, global_reward_index: 0 };
    compute_reward(&config, &mut state, 80).unwrap();
    // 40 * 10 + 30 * 20 = 1000, over 10 units
    assert_eq!(state.global_reward_index, 100 * DECIMAL_FRACTIONAL);
    assert_eq!(state.last_distributed, 80);
}

#[test]
fn compute_reward_refuses_zero_length_slot_in_window() {
    let config = Config {
        owner: vec![1],
        reward_token: reward(),
        staking_token: staking_token(),
        distribution_schedule: vec![(10, 10, 5)],
    };
    let mut state = State { last_distributed: 0, total_bond_amount: 1, global_reward_index: 0 };
    assert_eq!(compute_reward(&config, &mut state, 20), Err(ContractError::Overflow));
    assert_eq!(state.last_distributed, 0);
}

#[test]
fn compute_staker_reward_settles_and_catches_up() {
    let state = State {
        last_distributed: 0,
        total_bond_amount: 10,
        global_reward_index: 3 * DECIMAL_FRACTIONAL / 2,
    };
    let mut info = StakerInfo { reward_index: DECIMAL_FRACTIONAL, bond_amount: 10, pending_reward: 4 };
    compute_staker_reward(&state, &mut info).unwrap();
    assert_eq!(
        info,
        StakerInfo { reward_index: 3 * DECIMAL_FRACTIONAL / 2, bond_amount: 10, pending_reward: 9 }
    );
}

#[test]
fn compute_staker_reward_refuses_index_ahead_of_state() {
    let state = State { last_distributed: 0, total_bond_amount: 10, global_reward_index: 0 };
    let mut info = StakerInfo { reward_index: DECIMAL_FRACTIONAL, bond_amount: 10, pending_reward: 0 };
    assert_eq!(compute_staker_reward(&state, &mut info), Err(ContractError::ArithmeticUnderflow));
}

#[test]
fn bond_overflow_is_refused() {
    let mut store = farm(0, vec![]);
    bond(&mut store, 0, &b"addr0000".to_vec(), u128::MAX).unwrap();
    assert_eq!(bond(&mut store, 1, &b"addr0001".to_vec(), 1), Err(ContractError::Overflow));
    assert_eq!(read_state(&store).total_bond_amount, u128::MAX);
}

#[test]
fn unbond_beyond_recorded_total_underflows() {
    let mut store = farm(0, vec![]);
    let a = caller("addr0000");
    store_staker_info(
        &mut store,
        &a.sender_raw,
        StakerInfo { reward_index: 0, bond_amount: 100, pending_reward: 0 },
    );
    assert_eq!(unbond(&mut store, 1, &a, 50), Err(ContractError::ArithmeticUnderflow));
}

#[test]
fn store_records_round_trip() {
    let mut store = farm(0, vec![]);
    let key = b"addr0000".to_vec();
    let info = StakerInfo { reward_index: 3, bond_amount: 4, pending_reward: 5 };
    store_staker_info(&mut store, &key, info);
    assert_eq!(read_staker_info(&store, &key), info);
    remove_staker_info(&mut store, &key);
    assert_eq!(read_staker_info(&store, &key), StakerInfo { reward_index: 0, bond_amount: 0, pending_reward: 0 });
    let state = State { last_distributed: 9, total_bond_amount: 8, global_reward_index: 7 };
    store_state(&mut store, state);
    assert_eq!(read_state(&store), state);
    let mut config = read_config(&store).clone();
    config.distribution_schedule = vec![(1, 2, 3)];
    store_config(&mut store, config.clone());
    assert_eq!(*read_config(&store), config);
}

#[test]
fn store_new_holds_given_records() {
    let config = Config {
        owner: vec![9],
        reward_token: reward(),
        staking_token: staking_token(),
        distribution_schedule: vec![],
    };
    let state = State { last_distributed: 1, total_bond_amount: 2, global_reward_index: 3 };
    let store = Store::new(config.clone(), state);
    assert_eq!(*read_config(&store), config);
    assert_eq!(read_state(&store), state);
}

#[test]
fn query_config_names_assets() {
    let store = instantiate(
        0,
        &caller("owner0000"),
        InstantiateMsg {
            reward_token: AssetInfo::NativeToken { denom: "inj".to_string() },
            staking_token: staking_token(),
            distribution_schedule: vec![(0, 1, 2)],
        },
    );
    let c = query_config(&store);
    assert_eq!(c.reward_token, "inj");
    assert_eq!(c.staking_token, "staking0000");
    assert_eq!(c.distribution_schedule, vec![(0, 1, 2)]);
}

#[test]
fn query_staker_info_projects_without_saving() {
    let mut store = farm(0, vec![(0, 100, 1000)]);
    let a = caller("addr0000");
    bond(&mut store, 0, &a.sender_raw, 100).unwrap();
    let info = query_staker_info(&store, &a.sender_raw, Some(20)).unwrap();
    assert_eq!(info.pending_reward, 200);
    assert_eq!(read_staker_info(&store, &a.sender_raw).pending_reward, 0);
}

fn native_farm() -> Store {
    instantiate(
        0,
        &caller("owner0000"),
        InstantiateMsg {
            reward_token: reward(),
            staking_token: AssetInfo::NativeToken { denom: "inj".to_string() },
            distribution_schedule: vec![(0, 100, 1000)],
        },
    )
}

#[test]
fn execute_native_bond_needs_funds() {
    let mut store = native_farm();
    let mut info = caller("addr0000");
    info.funds = vec![Coin { denom: "inj".to_string(), amount: 99 }];
    let r = execute(&mut store, 0, &info, ExecuteMsg::Bond { amount: 100 });
    assert_eq!(r, Err(ContractError::InsufficientFunds));
    info.funds = vec![
        Coin { denom: "usdt".to_string(), amount: 500 },
        Coin { denom: "inj".to_string(), amount: 100 },
    ];
    let r = execute(&mut store, 0, &info, ExecuteMsg::Bond { amount: 100 });
    assert_eq!(r, Ok(Response::Done));
    assert_eq!(read_state(&store).total_bond_amount, 100);
}

#[test]
fn execute_unbond_sends_native_stake_back() {
    let mut store = native_farm();
    let mut info = caller("addr0000");
    info.funds = vec![Coin { denom: "inj".to_string(), amount: 100 }];
    execute(&mut store, 0, &info, ExecuteMsg::Bond { amount: 100 }).unwrap();
    let r = execute(&mut store, 10, &info, ExecuteMsg::Unbond { amount: 40 }).unwrap();
    assert_eq!(
        r,
        Response::Transfer(Transfer {
            recipient: "addr0000".to_string(),
            asset: AssetInfo::NativeToken { denom: "inj".to_string() },
            amount: 40,
        })
    );
    let r = execute(&mut store, 10, &info, ExecuteMsg::Withdraw).unwrap();
    assert_eq!(
        r,
        Response::Transfer(Transfer { recipient: "addr0000".to_string(), asset: reward(), amount: 100 })
    );
}

#[test]
fn execute_migrate_and_update() {
    let mut store = native_farm();
    let owner = caller("owner0000");
    let r = execute(
        &mut store,
        0,
        &owner,
        ExecuteMsg::UpdateConfig { distribution_schedule: vec![(0, 100, 1000), (10, 20, 30)] },
    );
    assert_eq!(r, Ok(Response::Done));
    let r = execute(
        &mut store,
        15,
        &owner,
        ExecuteMsg::MigrateStaking { new_staking_contract: "next".to_string() },
    )
    .unwrap();
    match r {
        Response::Migrated(m) => {
            assert_eq!(m.distributed_amount, 150 + 15);
            assert_eq!(m.transfer.amount, 1030 - 165);
        }
        other => panic!("unexpected response {:?}", other),
    }
}

fn receipt(hook: Option<Cw20HookMsg>, amount: u128) -> Cw20ReceiveMsg {
    Cw20ReceiveMsg {
        sender: "addr0000".to_string(),
        sender_raw: b"addr0000".to_vec(),
        amount,
        hook,
    }
}

#[test]
fn receive_bonds_for_token_sender() {
    let mut store = farm(0, vec![(0, 100, 1000)]);
    receive_cw20(&mut store, 0, &caller("staking0000"), receipt(Some(Cw20HookMsg::Bond), 70))
        .unwrap();
    assert_eq!(read_staker_info(&store, &b"addr0000".to_vec()).bond_amount, 70);
    let r = execute(
        &mut store,
        1,
        &caller("staking0000"),
        ExecuteMsg::Receive(receipt(Some(Cw20HookMsg::Bond), 5)),
    );
    assert_eq!(r, Ok(Response::Done));
    assert_eq!(read_state(&store).total_bond_amount, 75);
}

#[test]
fn receive_from_other_contract_is_refused() {
    let mut store = farm(0, vec![(0, 100, 1000)]);
    let r = receive_cw20(&mut store, 0, &caller("other0000"), receipt(Some(Cw20HookMsg::Bond), 70));
    assert_eq!(r, Err(ContractError::Unauthorized));
    let mut native = native_farm();
    let r = receive_cw20(&mut native, 0, &caller("inj"), receipt(Some(Cw20HookMsg::Bond), 70));
    assert_eq!(r, Err(ContractError::Unauthorized));
}

#[test]
fn receive_without_payload_is_refused() {
    let mut store = farm(0, vec![(0, 100, 1000)]);
    let r = receive_cw20(&mut store, 0, &caller("staking0000"), receipt(None, 70));
    assert_eq!(r, Err(ContractError::MalformedPayload));
    assert_eq!(read_state(&store).total_bond_amount, 0);
}

#[test]
fn error_messages() {
    assert_eq!(ContractError::Unauthorized.message(), "unauthorized");
    assert_eq!(
        ContractError::RemovesStartedDistribution.message(),
        "new schedule removes already started distribution"
    );
}
