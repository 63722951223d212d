//! The ledger's operations: reward accrual, settlement, bond, unbond,
//! withdraw, schedule replacement, migration and queries.
use vstd::prelude::*;

use crate::error::ContractError;
use crate::math::{decimal_from_ratio, mul_floor, ratio_floor, DECIMAL_FRACTIONAL};
use crate::msg::{
    Coin, ConfigResponse, Cw20HookMsg, Cw20ReceiveMsg, ExecuteMsg, InstantiateMsg, MessageInfo,
    Migration, Response, Transfer,
};
use crate::schedule::{
    copy_schedule, count, count_slot, lemma_started_part_bounded, schedule_accrual,
    schedule_update_check, scheduled_reward, split_schedule, started_part, total_amount,
    total_distribution, Slot,
};
use crate::state::{
    asset_name, copy_asset, copy_bytes, empty_staker, read_config, read_staker_info, read_state,
    remove_staker_info, same_bytes, set_schedule, store_staker_info, store_state, asset_view,
    AssetInfo, Config, StakerInfo, State, Store,
};

verus! {

/// The state after advancing the reward index from `state.last_distributed`
/// to `now` under `schedule`. With nothing bonded, only the time moves.
/// Otherwise the index grows by the emitted amount divided by the bonded
/// total, floored to 18 fractional digits. `None` where the emitted amount is
/// undefined or the amounts leave the range of `u128`.
pub open spec fn accrue(schedule: Seq<Slot>, state: State, now: u64) -> Option<State> {
    if state.total_bond_amount == 0 {
        Some(
            State {
                last_distributed: now,
                total_bond_amount: state.total_bond_amount,
                global_reward_index: state.global_reward_index,
            },
        )
    } else {
        match schedule_accrual(schedule, state.last_distributed, now) {
            Some(d) => {
                let delta = ratio_floor(
                    d as int,
                    DECIMAL_FRACTIONAL as int,
                    state.total_bond_amount as int,
                );
                if d > u128::MAX || state.global_reward_index + delta > u128::MAX {
                    None
                } else {
                    Some(
                        State {
                            last_distributed: now,
                            total_bond_amount: state.total_bond_amount,
                            global_reward_index: (state.global_reward_index + delta) as u128,
                        },
                    )
                }
            },
            None => None,
        }
    }
}

/// Neither the reward index nor the time of the last accrual moves back.
pub open spec fn advanced(pre: State, post: State) -> bool {
    post.global_reward_index >= pre.global_reward_index && post.last_distributed
        >= pre.last_distributed
}

/// Accrual to a time no earlier than the last one never lowers the reward
/// index nor moves the time back, and keeps the bonded total.
pub proof fn lemma_accrue_monotone(schedule: Seq<Slot>, state: State, now: u64)
    requires
        now >= state.last_distributed,
    ensures
        accrue(schedule, state, now) matches Some(s) ==> advanced(state, s) && s.total_bond_amount
            == state.total_bond_amount,
{
    if let Some(s) = accrue(schedule, state, now) {
        if state.total_bond_amount != 0 {
            let d = schedule_accrual(schedule, state.last_distributed, now)->0;
            assert(ratio_floor(d as int, DECIMAL_FRACTIONAL as int, state.total_bond_amount as int)
                >= 0) by (nonlinear_arith)
                requires
                    d >= 0,
                    state.total_bond_amount > 0,
            ;
        }
    }
}

/// With nothing bonded, accrual moves the time to `now` and leaves the
/// reward index as it was, whatever the schedule.
pub proof fn lemma_zero_stake_accrual(schedule: Seq<Slot>, state: State, now: u64)
    requires
        state.total_bond_amount == 0,
    ensures
        accrue(schedule, state, now) == Some(State { last_distributed: now, ..state }),
{
}

/// `amount` times the index whose atomics are `index`, floored.
pub open spec fn share(amount: u128, index: u128) -> int {
    ratio_floor(amount as int, index as int, DECIMAL_FRACTIONAL as int)
}

/// The staker's record after settling against `state`'s index: what the bond
/// earned since the staker's own index moves into `pending_reward`, and the
/// staker's index catches up.
pub open spec fn reconcile(state: State, staker: StakerInfo) -> Result<StakerInfo, ContractError> {
    let now_share = share(staker.bond_amount, state.global_reward_index);
    let then_share = share(staker.bond_amount, staker.reward_index);
    if now_share > u128::MAX || then_share > u128::MAX {
        Err(ContractError::Overflow)
    } else if now_share < then_share {
        Err(ContractError::ArithmeticUnderflow)
    } else if staker.pending_reward + (now_share - then_share) > u128::MAX {
        Err(ContractError::Overflow)
    } else {
        Ok(
            StakerInfo {
                reward_index: state.global_reward_index,
                bond_amount: staker.bond_amount,
                pending_reward: (staker.pending_reward + (now_share - then_share)) as u128,
            },
        )
    }
}

/// Accrual to `now` followed by the staker's settlement.
pub open spec fn settle(schedule: Seq<Slot>, state: State, staker: StakerInfo, now: u64) -> Result<
    (State, StakerInfo),
    ContractError,
> {
    match accrue(schedule, state, now) {
        None => Err(ContractError::Overflow),
        Some(s) => match reconcile(s, staker) {
            Ok(k) => Ok((s, k)),
            Err(e) => Err(e),
        },
    }
}

/// Advances the global reward index to `block_time`.
pub fn compute_reward(config: &Config, state: &mut State, block_time: u64) -> (r: Result<
    (),
    ContractError,
>)
    ensures
        match accrue(config.distribution_schedule@, *old(state), block_time) {
            Some(s) => r is Ok && *final(state) == s,
            None => r == Err::<(), ContractError>(ContractError::Overflow) && *final(state) == *old(
                state,
            ),
        },
{
    if state.total_bond_amount == 0 {
        state.last_distributed = block_time;
        return Ok(());
    }
    let distributed_amount = match scheduled_reward(
        &config.distribution_schedule,
        state.last_distributed,
        block_time,
    ) {
        Some(d) => d,
        None => return Err(ContractError::Overflow),
    };
    let delta = match decimal_from_ratio(distributed_amount, state.total_bond_amount) {
        Some(d) => d,
        None => return Err(ContractError::Overflow),
    };
    if state.global_reward_index > u128::MAX - delta {
        return Err(ContractError::Overflow);
    }
    state.last_distributed = block_time;
    state.global_reward_index = state.global_reward_index + delta;
    Ok(())
}

/// Settles the staker's earnings against the state's reward index.
pub fn compute_staker_reward(state: &State, staker_info: &mut StakerInfo) -> (r: Result<
    (),
    ContractError,
>)
    ensures
        match reconcile(*state, *old(staker_info)) {
            Ok(k) => r is Ok && *final(staker_info) == k,
            Err(e) => r == Err::<(), ContractError>(e) && *final(staker_info) == *old(staker_info),
        },
{
    let now_share = match mul_floor(staker_info.bond_amount, state.global_reward_index) {
        Some(v) => v,
        None => return Err(ContractError::Overflow),
    };
    let then_share = match mul_floor(staker_info.bond_amount, staker_info.reward_index) {
        Some(v) => v,
        None => return Err(ContractError::Overflow),
    };
    if now_share < then_share {
        return Err(ContractError::ArithmeticUnderflow);
    }
    let earned = now_share - then_share;
    if staker_info.pending_reward > u128::MAX - earned {
        return Err(ContractError::Overflow);
    }
    staker_info.reward_index = state.global_reward_index;
    staker_info.pending_reward = staker_info.pending_reward + earned;
    Ok(())
}

/// Settlement to `now` followed by a bond of `amount`.
pub open spec fn bond_result(
    schedule: Seq<Slot>,
    state: State,
    staker: StakerInfo,
    now: u64,
    amount: u128,
) -> Result<(State, StakerInfo), ContractError> {
    match settle(schedule, state, staker, now) {
        Err(e) => Err(e),
        Ok((s, k)) => if s.total_bond_amount + amount > u128::MAX || k.bond_amount + amount
            > u128::MAX {
            Err(ContractError::Overflow)
        } else {
            Ok(
                (
                    State { total_bond_amount: (s.total_bond_amount + amount) as u128, ..s },
                    StakerInfo { bond_amount: (k.bond_amount + amount) as u128, ..k },
                ),
            )
        },
    }
}

/// A check of the bonded amount, then settlement to `now`, then an unbond of
/// `amount`.
pub open spec fn unbond_result(
    schedule: Seq<Slot>,
    state: State,
    staker: StakerInfo,
    now: u64,
    amount: u128,
) -> Result<(State, StakerInfo), ContractError> {
    if staker.bond_amount < amount {
        Err(ContractError::InsufficientBondAmount)
    } else {
        match settle(schedule, state, staker, now) {
            Err(e) => Err(e),
            Ok((s, k)) => if s.total_bond_amount < amount {
                Err(ContractError::ArithmeticUnderflow)
            } else {
                Ok(
                    (
                        State { total_bond_amount: (s.total_bond_amount - amount) as u128, ..s },
                        StakerInfo { bond_amount: (k.bond_amount - amount) as u128, ..k },
                    ),
                )
            },
        }
    }
}

/// `post` is `pre` after a bond of `amount` by `sender` at `now` that
/// returned `r`.
pub open spec fn bonded(
    pre: Store,
    post: Store,
    sender: Seq<u8>,
    now: u64,
    amount: u128,
    r: Result<(), ContractError>,
) -> bool {
    match bond_result(
        pre.config().distribution_schedule@,
        pre.state(),
        pre.staker_info(sender),
        now,
        amount,
    ) {
        Ok((s, k)) => r is Ok && post.config() == pre.config() && post.state() == s
            && post.has_staker(sender) && post.staker_info(sender) == k && post.others_agree(
            &pre,
            sender,
        ),
        Err(e) => r == Err::<(), ContractError>(e) && post == pre,
    }
}

/// `post` is `pre` after an unbond of `amount` by the caller at `now` that
/// returned `r`.
pub open spec fn unbonded(
    pre: Store,
    post: Store,
    info: MessageInfo,
    now: u64,
    amount: u128,
    r: Result<Transfer, ContractError>,
) -> bool {
    match unbond_result(
        pre.config().distribution_schedule@,
        pre.state(),
        pre.staker_info(info.sender_raw@),
        now,
        amount,
    ) {
        Ok((s, k)) => r matches Ok(t) && t.recipient@ == info.sender@ && t.asset
            == pre.config().staking_token && t.amount == amount && post.config() == pre.config()
            && post.state() == s && post.holds_or_drops(info.sender_raw@, k) && post.others_agree(
            &pre,
            info.sender_raw@,
        ),
        Err(e) => r == Err::<Transfer, ContractError>(e) && post == pre,
    }
}

/// `post` is `pre` after a withdrawal by the caller at `now` that returned
/// `r`.
pub open spec fn withdrawn(
    pre: Store,
    post: Store,
    info: MessageInfo,
    now: u64,
    r: Result<Transfer, ContractError>,
) -> bool {
    match settle(
        pre.config().distribution_schedule@,
        pre.state(),
        pre.staker_info(info.sender_raw@),
        now,
    ) {
        Ok((s, k)) => r matches Ok(t) && t.recipient@ == info.sender@ && t.asset
            == pre.config().reward_token && t.amount == k.pending_reward && post.config()
            == pre.config() && post.state() == s && post.holds_or_drops(
            info.sender_raw@,
            (StakerInfo { pending_reward: 0, ..k }),
        ) && post.others_agree(&pre, info.sender_raw@),
        Err(e) => r == Err::<Transfer, ContractError>(e) && post == pre,
    }
}

/// Adds `amount` to the bonded total and to the staker's bond.
fn increase_bond_amount(state: &mut State, staker_info: &mut StakerInfo, amount: u128) -> (r: Result<
    (),
    ContractError,
>)
    ensures
        if old(state).total_bond_amount + amount > u128::MAX || old(staker_info).bond_amount
            + amount > u128::MAX {
            r == Err::<(), ContractError>(ContractError::Overflow) && *final(state) == *old(state)
                && *final(staker_info) == *old(staker_info)
        } else {
            r is Ok && *final(state) == (State {
                total_bond_amount: (old(state).total_bond_amount + amount) as u128,
                ..*old(state)
            }) && *final(staker_info) == (StakerInfo {
                bond_amount: (old(staker_info).bond_amount + amount) as u128,
                ..*old(staker_info)
            })
        },
{
    if state.total_bond_amount > u128::MAX - amount || staker_info.bond_amount > u128::MAX - amount {
        return Err(ContractError::Overflow);
    }
    state.total_bond_amount = state.total_bond_amount + amount;
    staker_info.bond_amount = staker_info.bond_amount + amount;
    Ok(())
}

/// Takes `amount` from the bonded total and from the staker's bond.
fn decrease_bond_amount(state: &mut State, staker_info: &mut StakerInfo, amount: u128) -> (r: Result<
    (),
    ContractError,
>)
    ensures
        if old(state).total_bond_amount < amount || old(staker_info).bond_amount < amount {
            r == Err::<(), ContractError>(ContractError::ArithmeticUnderflow) && *final(state)
                == *old(state) && *final(staker_info) == *old(staker_info)
        } else {
            r is Ok && *final(state) == (State {
                total_bond_amount: (old(state).total_bond_amount - amount) as u128,
                ..*old(state)
            }) && *final(staker_info) == (StakerInfo {
                bond_amount: (old(staker_info).bond_amount - amount) as u128,
                ..*old(staker_info)
            })
        },
{
    if state.total_bond_amount < amount || staker_info.bond_amount < amount {
        return Err(ContractError::ArithmeticUnderflow);
    }
    state.total_bond_amount = state.total_bond_amount - amount;
    staker_info.bond_amount = staker_info.bond_amount - amount;
    Ok(())
}

/// Settles the state and the record of `sender` to `now`.
fn settle_staker(store: &Store, sender: &Vec<u8>, now: u64) -> (r: Result<
    (State, StakerInfo),
    ContractError,
>)
    requires
        store.wf(),
    ensures
        r == settle(
            store.config().distribution_schedule@,
            store.state(),
            store.staker_info(sender@),
            now,
        ),
{
    let mut state = read_state(store);
    let mut staker_info = read_staker_info(store, sender);
    match compute_reward(read_config(store), &mut state, now) {
        Ok(()) => {},
        Err(e) => return Err(e),
    }
    match compute_staker_reward(&state, &mut staker_info) {
        Ok(()) => {},
        Err(e) => return Err(e),
    }
    Ok((state, staker_info))
}

/// Bonds `amount` for the account whose canonical address is `sender`, at
/// time `now`.
pub fn bond(store: &mut Store, now: u64, sender: &Vec<u8>, amount: u128) -> (r: Result<
    (),
    ContractError,
>)
    requires
        old(store).wf(),
    ensures
        final(store).wf(),
        bonded(*old(store), *final(store), sender@, now, amount, r),
        now >= old(store).state().last_distributed ==> advanced(old(store).state(), final(store).state()),
        old(store).conserved() ==> final(store).conserved(),
{
    proof {
        if now >= store.state().last_distributed {
            lemma_accrue_monotone(store.config().distribution_schedule@, store.state(), now);
        }
    }
    let (mut state, mut staker_info) = match settle_staker(store, sender, now) {
        Ok(v) => v,
        Err(e) => return Err(e),
    };
    match increase_bond_amount(&mut state, &mut staker_info, amount) {
        Ok(()) => {},
        Err(e) => return Err(e),
    }
    store_staker_info(store, sender, staker_info);
    store_state(store, state);
    Ok(())
}

/// Unbonds `amount` for the caller at time `now` and sends it back in the
/// staking asset. A record left with neither bond nor pending reward is
/// deleted.
pub fn unbond(store: &mut Store, now: u64, info: &MessageInfo, amount: u128) -> (r: Result<
    Transfer,
    ContractError,
>)
    requires
        old(store).wf(),
    ensures
        final(store).wf(),
        unbonded(*old(store), *final(store), *info, now, amount, r),
        now >= old(store).state().last_distributed ==> advanced(old(store).state(), final(store).state()),
        old(store).conserved() ==> final(store).conserved(),
{
    proof {
        if now >= store.state().last_distributed {
            lemma_accrue_monotone(store.config().distribution_schedule@, store.state(), now);
        }
    }
    let staker_info = read_staker_info(store, &info.sender_raw);
    if staker_info.bond_amount < amount {
        return Err(ContractError::InsufficientBondAmount);
    }
    let (mut state, mut staker_info) = match settle_staker(store, &info.sender_raw, now) {
        Ok(v) => v,
        Err(e) => return Err(e),
    };
    match decrease_bond_amount(&mut state, &mut staker_info, amount) {
        Ok(()) => {},
        Err(e) => return Err(e),
    }
    if staker_info.pending_reward == 0 && staker_info.bond_amount == 0 {
        remove_staker_info(store, &info.sender_raw);
    } else {
        store_staker_info(store, &info.sender_raw, staker_info);
    }
    store_state(store, state);
    let asset = copy_asset(&read_config(store).staking_token);
    Ok(Transfer { recipient: info.sender.clone(), asset, amount })
}

/// Settles the caller at time `now` and pays out its whole pending reward in
/// the reward asset. A record left without bond is deleted.
pub fn withdraw(store: &mut Store, now: u64, info: &MessageInfo) -> (r: Result<
    Transfer,
    ContractError,
>)
    requires
        old(store).wf(),
    ensures
        final(store).wf(),
        withdrawn(*old(store), *final(store), *info, now, r),
        now >= old(store).state().last_distributed ==> advanced(old(store).state(), final(store).state()),
        old(store).conserved() ==> final(store).conserved(),
{
    proof {
        if now >= store.state().last_distributed {
            lemma_accrue_monotone(store.config().distribution_schedule@, store.state(), now);
        }
    }
    let (state, mut staker_info) = match settle_staker(store, &info.sender_raw, now) {
        Ok(v) => v,
        Err(e) => return Err(e),
    };
    let amount = staker_info.pending_reward;
    staker_info.pending_reward = 0;
    if staker_info.bond_amount == 0 {
        remove_staker_info(store, &info.sender_raw);
    } else {
        store_staker_info(store, &info.sender_raw, staker_info);
    }
    store_state(store, state);
    let asset = copy_asset(&read_config(store).reward_token);
    Ok(Transfer { recipient: info.sender.clone(), asset, amount })
}

/// Checks that `distribution_schedule` may replace the configured schedule,
/// given how far the reward index has been advanced.
pub fn assert_new_schedules(config: &Config, state: &State, distribution_schedule: Vec<Slot>) -> (r:
    Result<(), ContractError>)
    ensures
        r == schedule_update_check(
            config.distribution_schedule@,
            distribution_schedule@,
            state.last_distributed,
        ),
{
    let current = &config.distribution_schedule;
    let last_distributed = state.last_distributed;
    if distribution_schedule.len() < current.len() {
        return Err(ContractError::ScheduleTooShort);
    }
    let mut i: usize = 0;
    while i < current.len()
        invariant
            i <= current@.len(),
            distribution_schedule@.len() >= current@.len(),
            current@ == config.distribution_schedule@,
            last_distributed == state.last_distributed,
            forall|j: int|
                0 <= j < i ==> !((#[trigger] current@[j]).0 <= last_distributed && count(
                    current@,
                    current@[j],
                ) > count(distribution_schedule@, current@[j])),
        decreases current.len() - i,
    {
        let slot = current[i];
        if slot.0 <= last_distributed {
            if count_slot(current, slot) > count_slot(&distribution_schedule, slot) {
                assert(current@[i as int] == slot);
                return Err(ContractError::RemovesStartedDistribution);
            }
        }
        i = i + 1;
    }
    let mut i: usize = 0;
    while i < distribution_schedule.len()
        invariant
            i <= distribution_schedule@.len(),
            distribution_schedule@.len() >= current@.len(),
            current@ == config.distribution_schedule@,
            last_distributed == state.last_distributed,
            forall|j: int|
                0 <= j < current@.len() ==> !((#[trigger] current@[j]).0 <= last_distributed
                    && count(current@, current@[j]) > count(distribution_schedule@, current@[j])),
            forall|j: int|
                0 <= j < i ==> !((#[trigger] distribution_schedule@[j]).0 <= last_distributed
                    && count(distribution_schedule@, distribution_schedule@[j]) > count(
                    current@,
                    distribution_schedule@[j],
                )),
        decreases distribution_schedule.len() - i,
    {
        let slot = distribution_schedule[i];
        if slot.0 <= last_distributed {
            if count_slot(&distribution_schedule, slot) > count_slot(current, slot) {
                assert(distribution_schedule@[i as int] == slot);
                return Err(ContractError::AddsStartedDistribution);
            }
        }
        i = i + 1;
    }
    Ok(())
}

/// `post` is `pre` after the caller asked at `now` to hand the farm over to
/// `successor`, and `r` was returned. Only the owner may. The index is
/// advanced to `now`, the schedule is cut at `now`, and what the cut schedule
/// no longer distributes goes to the successor in the reward asset.
pub open spec fn migrated(
    pre: Store,
    post: Store,
    info: MessageInfo,
    now: u64,
    successor: String,
    r: Result<Migration, ContractError>,
) -> bool {
    let schedule = pre.config().distribution_schedule@;
    if info.sender_raw@ != pre.config().owner@ {
        r == Err::<Migration, ContractError>(ContractError::Unauthorized) && post == pre
    } else {
        match accrue(schedule, pre.state(), now) {
            None => r == Err::<Migration, ContractError>(ContractError::Overflow) && post == pre,
            Some(s) => if total_amount(schedule) > u128::MAX {
                r == Err::<Migration, ContractError>(ContractError::Overflow) && post == pre
            } else {
                r matches Ok(m) && m.distributed_amount == total_amount(
                    started_part(schedule, now),
                ) && m.transfer.amount == total_amount(schedule) - m.distributed_amount
                    && m.transfer.recipient == successor && m.transfer.asset
                    == pre.config().reward_token && post.state() == s
                    && post.config().distribution_schedule@ == started_part(schedule, now)
                    && post.config().owner == pre.config().owner && post.config().reward_token
                    == pre.config().reward_token && post.config().staking_token
                    == pre.config().staking_token && post.records() == pre.records()
            },
        }
    }
}

/// `post` is `pre` after the caller asked to replace the schedule by
/// `distribution_schedule`, and `r` was returned. Only the owner may, and
/// only with a schedule that `schedule_update_check` allows.
pub open spec fn config_updated(
    pre: Store,
    post: Store,
    info: MessageInfo,
    distribution_schedule: Vec<Slot>,
    r: Result<(), ContractError>,
) -> bool {
    if info.sender_raw@ != pre.config().owner@ {
        r == Err::<(), ContractError>(ContractError::Unauthorized) && post == pre
    } else {
        match schedule_update_check(
            pre.config().distribution_schedule@,
            distribution_schedule@,
            pre.state().last_distributed,
        ) {
            Ok(()) => r is Ok && post.config() == (Config {
                distribution_schedule,
                ..pre.config()
            }) && post.state() == pre.state() && post.records() == pre.records(),
            Err(e) => r == Err::<(), ContractError>(e) && post == pre,
        }
    }
}

/// Replaces the schedule; only the owner may, and only where the new
/// schedule keeps every slot that has started.
pub fn update_config(store: &mut Store, info: &MessageInfo, distribution_schedule: Vec<Slot>) -> (r:
    Result<(), ContractError>)
    requires
        old(store).wf(),
    ensures
        final(store).wf(),
        final(store).state() == old(store).state(),
        config_updated(*old(store), *final(store), *info, distribution_schedule, r),
        old(store).conserved() ==> final(store).conserved(),
{
    let state = read_state(store);
    if !same_bytes(&info.sender_raw, &read_config(store).owner) {
        return Err(ContractError::Unauthorized);
    }
    match assert_new_schedules(read_config(store), &state, copy_schedule(&distribution_schedule)) {
        Ok(()) => {},
        Err(e) => return Err(e),
    }
    set_schedule(store, distribution_schedule);
    Ok(())
}

/// Hands the farm over to `new_staking_contract` at time `now`: the schedule
/// is cut at `now` and the undistributed rest of the reward is sent on.
pub fn migrate_staking(
    store: &mut Store,
    now: u64,
    info: &MessageInfo,
    new_staking_contract: String,
) -> (r: Result<Migration, ContractError>)
    requires
        old(store).wf(),
    ensures
        final(store).wf(),
        migrated(*old(store), *final(store), *info, now, new_staking_contract, r),
        now >= old(store).state().last_distributed ==> advanced(old(store).state(), final(store).state()),
        old(store).conserved() ==> final(store).conserved(),
{
    proof {
        if now >= store.state().last_distributed {
            lemma_accrue_monotone(store.config().distribution_schedule@, store.state(), now);
        }
    }
    let mut state = read_state(store);
    if !same_bytes(&info.sender_raw, &read_config(store).owner) {
        return Err(ContractError::Unauthorized);
    }
    match compute_reward(read_config(store), &mut state, now) {
        Ok(()) => {},
        Err(e) => return Err(e),
    }
    let total_distribution_amount = match total_distribution(
        &read_config(store).distribution_schedule,
    ) {
        Some(t) => t,
        None => return Err(ContractError::Overflow),
    };
    let (schedule, distributed_amount) = split_schedule(
        &read_config(store).distribution_schedule,
        now,
    );
    proof {
        lemma_started_part_bounded(store.config().distribution_schedule@, now);
    }
    let remaining_tokens = total_distribution_amount - distributed_amount;
    let asset = copy_asset(&read_config(store).reward_token);
    set_schedule(store, schedule);
    store_state(store, state);
    Ok(
        Migration {
            distributed_amount,
            transfer: Transfer { recipient: new_staking_contract, asset, amount: remaining_tokens },
        },
    )
}

/// The configuration, with each asset named by its address or denomination.
pub fn query_config(store: &Store) -> (r: ConfigResponse)
    ensures
        r.reward_token@ == asset_view(store.config().reward_token),
        r.staking_token@ == asset_view(store.config().staking_token),
        r.distribution_schedule@ == store.config().distribution_schedule@,
{
    let config = read_config(store);
    ConfigResponse {
        reward_token: asset_name(&config.reward_token),
        staking_token: asset_name(&config.staking_token),
        distribution_schedule: copy_schedule(&config.distribution_schedule),
    }
}

/// The state, advanced to `block_time` where one is given. Nothing is saved.
pub fn query_state(store: &Store, block_time: Option<u64>) -> (r: Result<State, ContractError>)
    ensures
        r == match block_time {
            None => Ok(store.state()),
            Some(t) => match accrue(store.config().distribution_schedule@, store.state(), t) {
                Some(s) => Ok(s),
                None => Err(ContractError::Overflow),
            },
        },
{
    let mut state = read_state(store);
    match block_time {
        None => {},
        Some(t) => match compute_reward(read_config(store), &mut state, t) {
            Ok(()) => {},
            Err(e) => return Err(e),
        },
    }
    Ok(state)
}

/// The record of `staker`, settled to `block_time` where one is given.
/// Nothing is saved.
pub fn query_staker_info(store: &Store, staker: &Vec<u8>, block_time: Option<u64>) -> (r: Result<
    StakerInfo,
    ContractError,
>)
    requires
        store.wf(),
    ensures
        r == match block_time {
            None => Ok(store.staker_info(staker@)),
            Some(t) => match settle(
                store.config().distribution_schedule@,
                store.state(),
                store.staker_info(staker@),
                t,
            ) {
                Ok((_, k)) => Ok(k),
                Err(e) => Err(e),
            },
        },
{
    match block_time {
        None => Ok(read_staker_info(store, staker)),
        Some(t) => match settle_staker(store, staker, t) {
            Ok((_, k)) => Ok(k),
            Err(e) => Err(e),
        },
    }
}

/// A new farm owned by the caller, with nothing bonded and the reward index
/// at zero from `now` on.
pub fn instantiate(now: u64, info: &MessageInfo, msg: InstantiateMsg) -> (r: Store)
    ensures
        r.wf(),
        r.config().owner@ == info.sender_raw@,
        r.config().reward_token == msg.reward_token,
        r.config().staking_token == msg.staking_token,
        r.config().distribution_schedule == msg.distribution_schedule,
        r.state() == (State { last_distributed: now, total_bond_amount: 0, global_reward_index: 0 }),
        forall|k: Seq<u8>| !r.has_staker(k),
        r.conserved(),
{
    let config = Config {
        owner: copy_bytes(&info.sender_raw),
        reward_token: msg.reward_token,
        staking_token: msg.staking_token,
        distribution_schedule: msg.distribution_schedule,
    };
    Store::new(config, State { last_distributed: now, total_bond_amount: 0, global_reward_index: 0 })
}

/// Whether `asset` is the token whose contract has address `addr`.
pub open spec fn is_token_contract(asset: AssetInfo, addr: Seq<char>) -> bool {
    match asset {
        AssetInfo::Token { contract_addr } => contract_addr@ == addr,
        AssetInfo::NativeToken { .. } => false,
    }
}

/// `post` is `pre` after the token contract `info.sender` notified the farm
/// of `msg` at `now`, and `r` was returned. Only the staking token's contract
/// may bond this way, on behalf of the account that sent the tokens.
pub open spec fn received(
    pre: Store,
    post: Store,
    info: MessageInfo,
    now: u64,
    msg: Cw20ReceiveMsg,
    r: Result<(), ContractError>,
) -> bool {
    match msg.hook {
        None => r == Err::<(), ContractError>(ContractError::MalformedPayload) && post == pre,
        Some(_) => if !is_token_contract(pre.config().staking_token, info.sender@) {
            r == Err::<(), ContractError>(ContractError::Unauthorized) && post == pre
        } else {
            bonded(pre, post, msg.sender_raw@, now, msg.amount, r)
        },
    }
}

/// Bonds on behalf of the account that sent tokens to the farm, where the
/// staking token's contract reports it.
pub fn receive_cw20(store: &mut Store, now: u64, info: &MessageInfo, cw20_msg: Cw20ReceiveMsg) -> (r:
    Result<(), ContractError>)
    requires
        old(store).wf(),
    ensures
        final(store).wf(),
        received(*old(store), *final(store), *info, now, cw20_msg, r),
        now >= old(store).state().last_distributed ==> advanced(old(store).state(), final(store).state()),
        old(store).conserved() ==> final(store).conserved(),
{
    match cw20_msg.hook {
        None => return Err(ContractError::MalformedPayload),
        Some(Cw20HookMsg::Bond) => {},
    }
    match &read_config(store).staking_token {
        AssetInfo::Token { contract_addr } => {
            if !(*contract_addr == info.sender) {
                return Err(ContractError::Unauthorized);
            }
        },
        AssetInfo::NativeToken { .. } => return Err(ContractError::Unauthorized),
    }
    bond(store, now, &cw20_msg.sender_raw, cw20_msg.amount)
}

/// Whether `funds` holds a coin of `denom` worth at least `amount`.
pub open spec fn has_funds(funds: Seq<Coin>, denom: Seq<char>, amount: u128) -> bool {
    exists|i: int| 0 <= i < funds.len() && (#[trigger] funds[i]).denom@ == denom && funds[i].amount >= amount
}

/// Whether the funds attached to a bond of `amount` cover it: always for a
/// token, whose transfer is checked by its contract.
pub open spec fn bond_covered(asset: AssetInfo, funds: Seq<Coin>, amount: u128) -> bool {
    match asset {
        AssetInfo::NativeToken { denom } => has_funds(funds, denom@, amount),
        AssetInfo::Token { .. } => true,
    }
}

/// Whether `funds` holds a coin of `denom` worth at least `amount`.
fn find_funds(funds: &Vec<Coin>, denom: &String, amount: u128) -> (r: bool)
    ensures
        r == has_funds(funds@, denom@, amount),
{
    let mut i: usize = 0;
    while i < funds.len()
        invariant
            i <= funds@.len(),
            forall|j: int|
                0 <= j < i ==> !((#[trigger] funds@[j]).denom@ == denom@ && funds@[j].amount
                    >= amount),
        decreases funds.len() - i,
    {
        if funds[i].denom == *denom && funds[i].amount >= amount {
            assert(funds@[i as int] == funds[i as int]);
            return true;
        }
        i = i + 1;
    }
    false
}

/// `r` without the response, for an operation that sends nothing.
pub open spec fn unit_of(r: Result<Response, ContractError>) -> Result<(), ContractError> {
    match r {
        Ok(_) => Ok(()),
        Err(e) => Err(e),
    }
}

/// Runs the operation `msg` for the caller at time `now`.
pub fn execute(store: &mut Store, now: u64, info: &MessageInfo, msg: ExecuteMsg) -> (r: Result<
    Response,
    ContractError,
>)
    requires
        old(store).wf(),
    ensures
        final(store).wf(),
        old(store).conserved() ==> final(store).conserved(),
        now >= old(store).state().last_distributed ==> advanced(old(store).state(), final(store).state()),
        match msg {
            ExecuteMsg::Receive(m) => received(*old(store), *final(store), *info, now, m, unit_of(r))
                && (r matches Ok(resp) ==> resp == Response::Done),
            ExecuteMsg::Bond { amount } => if !bond_covered(
                old(store).config().staking_token,
                info.funds@,
                amount,
            ) {
                r == Err::<Response, ContractError>(ContractError::InsufficientFunds)
                    && *final(store) == *old(store)
            } else {
                bonded(*old(store), *final(store), info.sender_raw@, now, amount, unit_of(r)) && (r
                    matches Ok(resp) ==> resp == Response::Done)
            },
            ExecuteMsg::Unbond { amount } => match r {
                Ok(Response::Transfer(t)) => unbonded(*old(store), *final(store), *info, now, amount, Ok(t)),
                Ok(_) => false,
                Err(e) => unbonded(*old(store), *final(store), *info, now, amount, Err(e)),
            },
            ExecuteMsg::Withdraw => match r {
                Ok(Response::Transfer(t)) => withdrawn(*old(store), *final(store), *info, now, Ok(t)),
                Ok(_) => false,
                Err(e) => withdrawn(*old(store), *final(store), *info, now, Err(e)),
            },
            ExecuteMsg::MigrateStaking { new_staking_contract } => match r {
                Ok(Response::Migrated(m)) => migrated(
                    *old(store),
                    *final(store),
                    *info,
                    now,
                    new_staking_contract,
                    Ok(m),
                ),
                Ok(_) => false,
                Err(e) => migrated(*old(store), *final(store), *info, now, new_staking_contract, Err(e)),
            },
            ExecuteMsg::UpdateConfig { distribution_schedule } => config_updated(
                *old(store),
                *final(store),
                *info,
                distribution_schedule,
                unit_of(r),
            ) && (r matches Ok(resp) ==> resp == Response::Done),
        },
{
    match msg {
        ExecuteMsg::Receive(m) => match receive_cw20(store, now, info, m) {
            Ok(()) => Ok(Response::Done),
            Err(e) => Err(e),
        },
        ExecuteMsg::Bond { amount } => {
            match &read_config(store).staking_token {
                AssetInfo::NativeToken { denom } => {
                    if !find_funds(&info.funds, denom, amount) {
                        return Err(ContractError::InsufficientFunds);
                    }
                },
                AssetInfo::Token { .. } => {},
            }
            match bond(store, now, &info.sender_raw, amount) {
                Ok(()) => Ok(Response::Done),
                Err(e) => Err(e),
            }
        },
        ExecuteMsg::Unbond { amount } => match unbond(store, now, info, amount) {
            Ok(t) => Ok(Response::Transfer(t)),
            Err(e) => Err(e),
        },
        ExecuteMsg::Withdraw => match withdraw(store, now, info) {
            Ok(t) => Ok(Response::Transfer(t)),
            Err(e) => Err(e),
        },
        ExecuteMsg::MigrateStaking { new_staking_contract } => match migrate_staking(
            store,
            now,
            info,
            new_staking_contract,
        ) {
            Ok(m) => Ok(Response::Migrated(m)),
            Err(e) => Err(e),
        },
        ExecuteMsg::UpdateConfig { distribution_schedule } => match update_config(
            store,
            info,
            distribution_schedule,
        ) {
            Ok(()) => Ok(Response::Done),
            Err(e) => Err(e),
        },
    }
}

/// An unbond that leaves a staker with neither bond nor pending reward
/// deletes the record: later reads see the all-zero record.
pub proof fn lemma_unbond_collects_empty_record(
    pre: Store,
    post: Store,
    info: MessageInfo,
    now: u64,
    amount: u128,
    r: Result<Transfer, ContractError>,
)
    requires
        unbonded(pre, post, info, now, amount, r),
        unbond_result(
            pre.config().distribution_schedule@,
            pre.state(),
            pre.staker_info(info.sender_raw@),
            now,
            amount,
        ) matches Ok((_, k)) && k.bond_amount == 0 && k.pending_reward == 0,
    ensures
        !post.has_staker(info.sender_raw@),
        post.staker_info(info.sender_raw@) == empty_staker(),
{
}

/// A schedule that holds fewer copies of a started slot than the current one
/// is refused as removing it, whatever else it holds.
pub proof fn lemma_started_slot_cannot_be_removed(
    current: Seq<Slot>,
    new: Seq<Slot>,
    last_distributed: u64,
    i: int,
)
    requires
        0 <= i < current.len(),
        current[i].0 <= last_distributed,
        count(new, current[i]) < count(current, current[i]),
        new.len() >= current.len(),
    ensures
        schedule_update_check(current, new, last_distributed) == Err::<(), ContractError>(
            ContractError::RemovesStartedDistribution,
        ),
{
}

} // verus!
