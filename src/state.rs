//! The ledger's records and the store that holds them.
use vstd::prelude::*;

use crate::schedule::Slot;

verus! {

/// An asset: a native denomination of the chain, or a token contract.
#[derive(Clone, Debug, PartialEq, Eq)]
pub enum AssetInfo {
    Token { contract_addr: String },
    NativeToken { denom: String },
}

/// The farm's configuration.
#[derive(Clone, Debug, PartialEq, Eq)]
pub struct Config {
    /// Canonical address of the account that may change the configuration.
    pub owner: Vec<u8>,
    pub reward_token: AssetInfo,
    pub staking_token: AssetInfo,
    pub distribution_schedule: Vec<Slot>,
}

/// The global aggregate of the ledger.
#[derive(Clone, Copy, Debug, PartialEq, Eq, Structural)]
pub struct State {
    /// Time, in seconds, up to which the reward index has been advanced.
    pub last_distributed: u64,
    /// Sum of every staker's bonded amount.
    pub total_bond_amount: u128,
    /// Cumulative reward per bonded unit, in atomics of 10^-18.
    pub global_reward_index: u128,
}

/// One staker's record.
#[derive(Clone, Copy, Debug, PartialEq, Eq, Structural)]
pub struct StakerInfo {
    /// The global reward index at the staker's last settlement, in atomics.
    pub reward_index: u128,
    pub bond_amount: u128,
    /// Reward settled but not yet withdrawn.
    pub pending_reward: u128,
}

/// The record that stands for an account that has none.
pub open spec fn empty_staker() -> StakerInfo {
    StakerInfo { reward_index: 0, bond_amount: 0, pending_reward: 0 }
}

/// Sum of the bonded amounts of a list of records.
pub open spec fn sum_bonds(records: Seq<(Vec<u8>, StakerInfo)>) -> int
    decreases records.len(),
{
    if records.len() == 0 {
        0
    } else {
        sum_bonds(records.drop_last()) + records.last().1.bond_amount
    }
}

/// Replacing one record changes the sum by the difference of the bonds.
pub proof fn lemma_sum_bonds_update(records: Seq<(Vec<u8>, StakerInfo)>, i: int, r: (Vec<u8>, StakerInfo))
    requires
        0 <= i < records.len(),
    ensures
        sum_bonds(records.update(i, r)) == sum_bonds(records) - records[i].1.bond_amount
            + r.1.bond_amount,
    decreases records.len(),
{
    let u = records.update(i, r);
    if i == records.len() - 1 {
        assert(u.drop_last() =~= records.drop_last());
    } else {
        assert(u.drop_last() =~= records.drop_last().update(i, r));
        lemma_sum_bonds_update(records.drop_last(), i, r);
    }
}

/// Removing one record takes its bond out of the sum.
pub proof fn lemma_sum_bonds_remove(records: Seq<(Vec<u8>, StakerInfo)>, i: int)
    requires
        0 <= i < records.len(),
    ensures
        sum_bonds(records.remove(i)) == sum_bonds(records) - records[i].1.bond_amount,
    decreases records.len(),
{
    let u = records.remove(i);
    if i == records.len() - 1 {
        assert(u =~= records.drop_last());
    } else {
        assert(u.drop_last() =~= records.drop_last().remove(i));
        lemma_sum_bonds_remove(records.drop_last(), i);
    }
}

/// The persisted layout: one configuration, one state, and a record per
/// staker keyed by canonical address.
pub struct Store {
    config: Config,
    state: State,
    stakers: Vec<(Vec<u8>, StakerInfo)>,
}

impl Store {
    /// The stored configuration.
    pub closed spec fn config(&self) -> Config {
        self.config
    }

    /// The stored state.
    pub closed spec fn state(&self) -> State {
        self.state
    }

    /// The live staker records, one per address.
    pub closed spec fn records(&self) -> Seq<(Vec<u8>, StakerInfo)> {
        self.stakers@
    }

    /// Whether `k` has a live record.
    pub open spec fn has_staker(&self, k: Seq<u8>) -> bool {
        exists|i: int| 0 <= i < self.records().len() && (#[trigger] self.records()[i]).0@ == k
    }

    /// The live record of `k`; meaningful where `has_staker(k)`.
    pub open spec fn record(&self, k: Seq<u8>) -> StakerInfo {
        self.records()[choose|i: int|
            0 <= i < self.records().len() && (#[trigger] self.records()[i]).0@ == k].1
    }

    /// The sum of `bond_amount` over all live records.
    pub open spec fn total_bonded(&self) -> int {
        sum_bonds(self.records())
    }

    /// Each address has at most one record.
    pub open spec fn wf(&self) -> bool {
        forall|i: int, j: int|
            0 <= i < j < self.records().len() ==> (#[trigger] self.records()[i]).0@
                != (#[trigger] self.records()[j]).0@
    }

    /// The record of `k`, or the all-zero record where it has none.
    pub open spec fn staker_info(&self, k: Seq<u8>) -> StakerInfo {
        if self.has_staker(k) {
            self.record(k)
        } else {
            empty_staker()
        }
    }

    /// The bonded total of the state equals the sum of the live records'
    /// bonded amounts.
    pub open spec fn conserved(&self) -> bool {
        self.state().total_bond_amount == self.total_bonded()
    }

    /// In a well-formed store, the record at a position is the record of its
    /// address.
    pub proof fn lemma_record_at(&self, i: int)
        requires
            self.wf(),
            0 <= i < self.records().len(),
        ensures
            self.has_staker(self.records()[i].0@),
            self.record(self.records()[i].0@) == self.records()[i].1,
    {
        let recs = self.records();
        let k = recs[i].0@;
        assert(recs[i].0@ == k);
        let c = choose|j: int| 0 <= j < recs.len() && (#[trigger] recs[j]).0@ == k;
        if c != i {
            if c < i {
                assert(recs[c].0@ != recs[i].0@);
            } else {
                assert(recs[i].0@ != recs[c].0@);
            }
        }
    }

    /// Every address other than `k` has the same record, or the same lack of
    /// one, here and in `other`.
    pub open spec fn others_agree(&self, other: &Store, k: Seq<u8>) -> bool {
        forall|j: Seq<u8>|
            j != k ==> self.has_staker(j) == other.has_staker(j) && self.staker_info(j)
                == other.staker_info(j)
    }

    /// `k` holds `info`, except that a record with neither bond nor pending
    /// reward is not kept at all.
    pub open spec fn holds_or_drops(&self, k: Seq<u8>, info: StakerInfo) -> bool {
        if info.bond_amount == 0 && info.pending_reward == 0 {
            !self.has_staker(k)
        } else {
            self.has_staker(k) && self.staker_info(k) == info
        }
    }

    /// A store that holds `config` and `state` and no staker.
    pub fn new(config: Config, state: State) -> (r: Store)
        ensures
            r.wf(),
            r.config() == config,
            r.state() == state,
            forall|k: Seq<u8>| !r.has_staker(k),
            r.total_bonded() == 0,
    {
        Store { config, state, stakers: Vec::new() }
    }

    /// The index of the record of `owner`, if it has one.
    fn find(&self, owner: &Vec<u8>) -> (r: Option<usize>)
        requires
            self.wf(),
        ensures
            match r {
                Some(i) => i < self.stakers@.len() && self.stakers@[i as int].0@ == owner@
                    && self.has_staker(owner@) && self.record(owner@) == self.stakers@[i as int].1,
                None => !self.has_staker(owner@),
            },
    {
        let mut i: usize = 0;
        while i < self.stakers.len()
            invariant
                self.wf(),
                i <= self.stakers@.len(),
                forall|j: int| 0 <= j < i ==> (#[trigger] self.stakers@[j]).0@ != owner@,
            decreases self.stakers.len() - i,
        {
            if same_bytes(&self.stakers[i].0, owner) {
                proof {
                    let recs = self.records();
                    assert(recs[i as int].0@ == owner@);
                    assert(self.has_staker(owner@));
                    let c = choose|j: int|
                        0 <= j < recs.len() && (#[trigger] recs[j]).0@ == owner@;
                    if c != i as int {
                        if c < i {
                            assert(recs[c].0@ != recs[i as int].0@);
                        } else {
                            assert(recs[i as int].0@ != recs[c].0@);
                        }
                    }
                }
                return Some(i);
            }
            i = i + 1;
        }
        None
    }
}

/// Whether two byte strings are equal.
pub(crate) fn same_bytes(a: &Vec<u8>, b: &Vec<u8>) -> (r: bool)
    ensures
        r == (a@ == b@),
{
    if a.len() != b.len() {
        return false;
    }
    let mut i: usize = 0;
    while i < a.len()
        invariant
            a@.len() == b@.len(),
            i <= a@.len(),
            forall|j: int| 0 <= j < i ==> a@[j] == b@[j],
        decreases a.len() - i,
    {
        if a[i] != b[i] {
            return false;
        }
        i = i + 1;
    }
    assert(a@ =~= b@);
    true
}

/// A copy of a byte string.
pub(crate) fn copy_bytes(a: &Vec<u8>) -> (r: Vec<u8>)
    ensures
        r@ == a@,
{
    let mut r: Vec<u8> = Vec::new();
    let mut i: usize = 0;
    while i < a.len()
        invariant
            i <= a@.len(),
            r@ == a@.take(i as int),
        decreases a.len() - i,
    {
        r.push(a[i]);
        i = i + 1;
        assert(r@ =~= a@.take(i as int));
    }
    assert(a@.take(i as int) =~= a@);
    r
}

/// The stored configuration.
pub fn read_config(store: &Store) -> (r: &Config)
    ensures
        *r == store.config(),
{
    &store.config
}

/// Replaces the stored configuration.
pub fn store_config(store: &mut Store, config: Config)
    ensures
        final(store).config() == config,
        final(store).state() == old(store).state(),
        final(store).records() == old(store).records(),
{
    store.config = config;
}

/// The stored state.
pub fn read_state(store: &Store) -> (r: State)
    ensures
        r == store.state(),
{
    store.state
}

/// Replaces the stored state.
pub fn store_state(store: &mut Store, state: State)
    ensures
        final(store).state() == state,
        final(store).config() == old(store).config(),
        final(store).records() == old(store).records(),
{
    store.state = state;
}

/// The record of `owner`, or the all-zero record where it has none.
pub fn read_staker_info(store: &Store, owner: &Vec<u8>) -> (r: StakerInfo)
    requires
        store.wf(),
    ensures
        r == store.staker_info(owner@),
{
    match store.find(owner) {
        Some(i) => store.stakers[i].1,
        None => StakerInfo { reward_index: 0, bond_amount: 0, pending_reward: 0 },
    }
}

/// Whether `owner` has a live record.
pub fn has_staker_info(store: &Store, owner: &Vec<u8>) -> (r: bool)
    requires
        store.wf(),
    ensures
        r == store.has_staker(owner@),
{
    match store.find(owner) {
        Some(_) => true,
        None => false,
    }
}

/// Saves `info` as the record of `owner`.
pub fn store_staker_info(store: &mut Store, owner: &Vec<u8>, info: StakerInfo)
    requires
        old(store).wf(),
    ensures
        final(store).wf(),
        final(store).config() == old(store).config(),
        final(store).state() == old(store).state(),
        final(store).has_staker(owner@),
        final(store).staker_info(owner@) == info,
        forall|k: Seq<u8>|
            k != owner@ ==> final(store).has_staker(k) == old(store).has_staker(k)
                && final(store).staker_info(k) == old(store).staker_info(k),
        final(store).total_bonded() == old(store).total_bonded() - old(store).staker_info(
            owner@,
        ).bond_amount + info.bond_amount,
{
    let ghost pre = *store;
    match store.find(owner) {
        Some(i) => {
            let key = copy_bytes(owner);
            store.stakers.set(i, (key, info));
            proof {
                let recs = store.records();
                assert(recs =~= pre.records().update(i as int, (key, info)));
                lemma_sum_bonds_update(pre.records(), i as int, (key, info));
                assert(store.wf()) by {
                    assert forall|a: int, b: int|
                        0 <= a < b < recs.len() implies (#[trigger] recs[a]).0@
                        != (#[trigger] recs[b]).0@ by {
                        if a == i as int {
                            assert(pre.records()[a].0@ != pre.records()[b].0@);
                        } else if b == i as int {
                            assert(pre.records()[a].0@ != pre.records()[b].0@);
                        }
                    }
                }
                store.lemma_record_at(i as int);
                assert forall|k: Seq<u8>| k != owner@ implies store.has_staker(k) == pre.has_staker(
                    k,
                ) && store.staker_info(k) == pre.staker_info(k) by {
                    if pre.has_staker(k) {
                        let j = choose|j: int|
                            0 <= j < pre.records().len() && (#[trigger] pre.records()[j]).0@ == k;
                        pre.lemma_record_at(j);
                        assert(recs[j] == pre.records()[j]);
                        store.lemma_record_at(j);
                    }
                    if store.has_staker(k) {
                        let j = choose|j: int|
                            0 <= j < recs.len() && (#[trigger] recs[j]).0@ == k;
                        assert(pre.records()[j] == recs[j]);
                    }
                }
            }
        },
        None => {
            let key = copy_bytes(owner);
            store.stakers.push((key, info));
            proof {
                let recs = store.records();
                let n = pre.records().len() as int;
                assert(recs =~= pre.records().push((key, info)));
                assert(recs.drop_last() =~= pre.records());
                assert(store.wf()) by {
                    assert forall|a: int, b: int|
                        0 <= a < b < recs.len() implies (#[trigger] recs[a]).0@
                        != (#[trigger] recs[b]).0@ by {
                        if b == n {
                            assert(pre.records()[a].0@ == recs[a].0@);
                        } else {
                            assert(pre.records()[a].0@ != pre.records()[b].0@);
                        }
                    }
                }
                store.lemma_record_at(n);
                assert forall|k: Seq<u8>| k != owner@ implies store.has_staker(k) == pre.has_staker(
                    k,
                ) && store.staker_info(k) == pre.staker_info(k) by {
                    if pre.has_staker(k) {
                        let j = choose|j: int|
                            0 <= j < pre.records().len() && (#[trigger] pre.records()[j]).0@ == k;
                        pre.lemma_record_at(j);
                        assert(recs[j] == pre.records()[j]);
                        store.lemma_record_at(j);
                    }
                    if store.has_staker(k) {
                        let j = choose|j: int|
                            0 <= j < recs.len() && (#[trigger] recs[j]).0@ == k;
                        assert(j != n);
                        assert(pre.records()[j] == recs[j]);
                    }
                }
            }
        },
    }
}

/// Deletes the record of `owner`, if it has one.
pub fn remove_staker_info(store: &mut Store, owner: &Vec<u8>)
    requires
        old(store).wf(),
    ensures
        final(store).wf(),
        final(store).config() == old(store).config(),
        final(store).state() == old(store).state(),
        !final(store).has_staker(owner@),
        forall|k: Seq<u8>|
            k != owner@ ==> final(store).has_staker(k) == old(store).has_staker(k)
                && final(store).staker_info(k) == old(store).staker_info(k),
        final(store).total_bonded() == old(store).total_bonded() - old(store).staker_info(
            owner@,
        ).bond_amount,
{
    let ghost pre = *store;
    match store.find(owner) {
        Some(i) => {
            store.stakers.remove(i);
            proof {
                let recs = store.records();
                let old_recs = pre.records();
                assert(recs =~= old_recs.remove(i as int));
                lemma_sum_bonds_remove(old_recs, i as int);
                assert(store.wf()) by {
                    assert forall|a: int, b: int|
                        0 <= a < b < recs.len() implies (#[trigger] recs[a]).0@
                        != (#[trigger] recs[b]).0@ by {
                        let a0 = if a < i { a } else { a + 1 };
                        let b0 = if b < i { b } else { b + 1 };
                        assert(old_recs[a0].0@ != old_recs[b0].0@);
                    }
                }
                assert forall|k: Seq<u8>| k != owner@ implies store.has_staker(k) == pre.has_staker(
                    k,
                ) && store.staker_info(k) == pre.staker_info(k) by {
                    if pre.has_staker(k) {
                        let j = choose|j: int|
                            0 <= j < old_recs.len() && (#[trigger] old_recs[j]).0@ == k;
                        pre.lemma_record_at(j);
                        assert(j != i as int);
                        let j1 = if j < i { j } else { j - 1 };
                        assert(recs[j1] == old_recs[j]);
                        store.lemma_record_at(j1);
                    }
                    if store.has_staker(k) {
                        let j = choose|j: int| 0 <= j < recs.len() && (#[trigger] recs[j]).0@ == k;
                        let j0 = if j < i { j } else { j + 1 };
                        assert(old_recs[j0] == recs[j]);
                    }
                }
                if store.has_staker(owner@) {
                    let j = choose|j: int| 0 <= j < recs.len() && (#[trigger] recs[j]).0@ == owner@;
                    let j0 = if j < i { j } else { j + 1 };
                    assert(old_recs[j0] == recs[j]);
                    if j0 < i {
                        assert(old_recs[j0].0@ != old_recs[i as int].0@);
                    } else {
                        assert(old_recs[i as int].0@ != old_recs[j0].0@);
                    }
                }
            }
        },
        None => {},
    }
}

/// A copy of an asset.
pub(crate) fn copy_asset(asset: &AssetInfo) -> (r: AssetInfo)
    ensures
        r == *asset,
{
    match asset {
        AssetInfo::Token { contract_addr } => AssetInfo::Token { contract_addr: contract_addr.clone() },
        AssetInfo::NativeToken { denom } => AssetInfo::NativeToken { denom: denom.clone() },
    }
}

/// The address of a token contract, or the name of a native denomination.
pub open spec fn asset_view(asset: AssetInfo) -> Seq<char> {
    match asset {
        AssetInfo::Token { contract_addr } => contract_addr@,
        AssetInfo::NativeToken { denom } => denom@,
    }
}

/// The address of a token contract, or the name of a native denomination.
pub(crate) fn asset_name(asset: &AssetInfo) -> (r: String)
    ensures
        r@ == asset_view(*asset),
{
    match asset {
        AssetInfo::Token { contract_addr } => contract_addr.clone(),
        AssetInfo::NativeToken { denom } => denom.clone(),
    }
}

/// Replaces the configured schedule, keeping the rest of the configuration.
pub(crate) fn set_schedule(store: &mut Store, distribution_schedule: Vec<Slot>)
    ensures
        final(store).config() == (Config { distribution_schedule, ..old(store).config() }),
        final(store).state() == old(store).state(),
        final(store).records() == old(store).records(),
        final(store).wf() == old(store).wf(),
{
    store.config.distribution_schedule = distribution_schedule;
}

} // verus!
