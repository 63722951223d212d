//! The factory side of a test querier: known pairs, keyed by their assets'
//! names, and the decimals of native denominations.
use vstd::prelude::*;
use vstd::relations::{sorted_by, total_ordering};
use vstd::seq_lib::{group_to_multiset_ensures, lemma_sorted_unique};

use crate::state::{copy_asset, AssetInfo};

verus! {

broadcast use group_to_multiset_ensures;

/// A pair contract and what it trades.
#[derive(Clone, Debug, PartialEq, Eq)]
pub struct PairInfo {
    pub asset_infos: [AssetInfo; 2],
    pub contract_addr: String,
    pub liquidity_token: String,
    pub asset_decimals: [u8; 2],
    pub burn_address: String,
    pub fee_wallet_address: String,
}

/// The order of characters from the largest down.
pub open spec fn char_desc() -> spec_fn(char, char) -> bool {
    |a: char, b: char| a >= b
}

/// The characters of `key`, largest first: the form under which a pair is
/// filed.
pub open spec fn sort_key(key: Seq<char>) -> Seq<char> {
    key.sort_by(char_desc())
}

/// The map that inserting `entries` in order builds: a later entry for a key
/// replaces an earlier one.
pub open spec fn entries_map<V>(entries: Seq<(String, V)>) -> Map<Seq<char>, V>
    decreases entries.len(),
{
    if entries.len() == 0 {
        Map::empty()
    } else {
        entries_map(entries.drop_last()).insert(entries.last().0@, entries.last().1)
    }
}

/// No key occurs twice.
pub open spec fn keys_unique<V>(entries: Seq<(String, V)>) -> bool {
    forall|i: int, j: int|
        0 <= i < j < entries.len() ==> (#[trigger] entries[i]).0@ != (#[trigger] entries[j]).0@
}

/// The map that filing `pairs` in order builds, each under its sort key.
pub open spec fn pairs_map(pairs: Seq<(&String, &PairInfo)>) -> Map<Seq<char>, PairInfo>
    decreases pairs.len(),
{
    if pairs.len() == 0 {
        Map::empty()
    } else {
        pairs_map(pairs.drop_last()).insert(sort_key(pairs.last().0@), *pairs.last().1)
    }
}

/// Relies on `str::chars` and `Iterator::collect`: the characters of `s`,
/// in order.
#[verifier::external_body]
fn chars_of(s: &String) -> (r: Vec<char>)
    ensures
        r@ == s@,
{
    s.chars().collect()
}

/// Relies on `String::from_iter` over characters: the string of `chars`, in
/// order.
#[verifier::external_body]
fn string_of(chars: &Vec<char>) -> (r: String)
    ensures
        r@ == chars@,
{
    String::from_iter(chars.iter())
}

proof fn lemma_char_desc_total()
    ensures
        total_ordering(char_desc()),
{
}

/// The characters of `key`, largest first.
fn sorted_key(key: &String) -> (r: String)
    ensures
        r@ == sort_key(key@),
{
    let chars = chars_of(key);
    let mut out: Vec<char> = Vec::new();
    let mut i: usize = 0;
    while i < chars.len()
        invariant
            i <= chars@.len(),
            sorted_by(out@, char_desc()),
            out@.to_multiset() == chars@.take(i as int).to_multiset(),
        decreases chars.len() - i,
    {
        let c = chars[i];
        let mut p: usize = 0;
        while p < out.len() && out[p] >= c
            invariant
                p <= out@.len(),
                forall|q: int| 0 <= q < p ==> out@[q] >= c,
            decreases out.len() - p,
        {
            p = p + 1;
        }
        let ghost before = out@;
        out.insert(p, c);
        proof {
            assert(out@ == before.insert(p as int, c));
            assert(chars@.take(i + 1) =~= chars@.take(i as int).push(c));
            assert forall|a: int, b: int| 0 <= a < b < out@.len() implies #[trigger] (char_desc())(
                out@[a],
                out@[b],
            ) by {
                if b < p {
                } else if a < p && b == p {
                } else if a < p {
                    assert((char_desc())(before[a], before[b - 1]));
                } else if a == p {
                    assert(before[p as int] < c);
                    if b - 1 > p {
                        assert((char_desc())(before[p as int], before[b - 1]));
                    }
                } else {
                    assert((char_desc())(before[a - 1], before[b - 1]));
                }
            }
        }
        i = i + 1;
    }
    proof {
        assert(chars@.take(i as int) =~= chars@);
        lemma_char_desc_total();
        key@.lemma_sort_by_ensures(char_desc());
        lemma_sorted_unique(out@, key@.sort_by(char_desc()), char_desc());
    }
    string_of(&out)
}

/// Replacing the entry of a key, in a table with unique keys, rebinds that
/// key in the map.
proof fn lemma_entries_update<V>(entries: Seq<(String, V)>, j: int, e: (String, V))
    requires
        keys_unique(entries),
        0 <= j < entries.len(),
        entries[j].0@ == e.0@,
    ensures
        entries_map(entries.update(j, e)) == entries_map(entries).insert(e.0@, e.1),
    decreases entries.len(),
{
    let u = entries.update(j, e);
    if j == entries.len() - 1 {
        assert(u.drop_last() =~= entries.drop_last());
        assert(entries_map(u) =~= entries_map(entries).insert(e.0@, e.1));
    } else {
        let rest = entries.drop_last();
        assert(u.drop_last() =~= rest.update(j, e));
        assert(entries[j].0@ != entries.last().0@);
        lemma_entries_update(rest, j, e);
        assert(entries_map(u) =~= entries_map(entries).insert(e.0@, e.1));
    }
}

/// In a table with unique keys, the map holds each key at its entry's value,
/// and holds no other key.
proof fn lemma_entries_lookup<V>(entries: Seq<(String, V)>, k: Seq<char>)
    requires
        keys_unique(entries),
    ensures
        forall|i: int|
            0 <= i < entries.len() && (#[trigger] entries[i]).0@ == k ==> entries_map(
                entries,
            ).contains_key(k) && entries_map(entries)[k] == entries[i].1,
        (forall|i: int| 0 <= i < entries.len() ==> (#[trigger] entries[i]).0@ != k) ==> !entries_map(
            entries,
        ).contains_key(k),
    decreases entries.len(),
{
    if entries.len() > 0 {
        let rest = entries.drop_last();
        lemma_entries_lookup(rest, k);
        assert forall|i: int| 0 <= i < rest.len() implies rest[i] == entries[i] by {}
        assert forall|i: int|
            0 <= i < entries.len() - 1 && (#[trigger] entries[i]).0@ == k implies entries.last().0@
            != k by {
            assert(entries[i].0@ != entries[entries.len() - 1].0@);
        }
    }
}

/// Binds `key` to `value` in the table, replacing an earlier binding.
fn insert_entry<V>(table: &mut Vec<(String, V)>, key: String, value: V)
    requires
        keys_unique(old(table)@),
    ensures
        keys_unique(final(table)@),
        entries_map(final(table)@) == entries_map(old(table)@).insert(key@, value),
{
    let mut i: usize = 0;
    while i < table.len()
        invariant
            i <= table@.len(),
            table@ == old(table)@,
            keys_unique(table@),
            forall|j: int| 0 <= j < i ==> (#[trigger] table@[j]).0@ != key@,
        decreases table.len() - i,
    {
        if table[i].0 == key {
            let ghost before = table@;
            let k = key;
            proof {
                lemma_entries_update(before, i as int, (k, value));
            }
            table.set(i, (k, value));
            assert(table@ == before.update(i as int, (k, value)));
            assert(keys_unique(table@)) by {
                assert forall|a: int, b: int| 0 <= a < b < table@.len() implies (#[trigger] table@[a]).0@
                    != (#[trigger] table@[b]).0@ by {
                    assert(before[a].0@ != before[b].0@);
                }
            }
            return;
        }
        i = i + 1;
    }
    let ghost before = table@;
    let ghost k = key@;
    table.push((key, value));
    assert(table@.drop_last() =~= before);
    assert(table@.last().0@ == k);
    assert(keys_unique(table@)) by {
        assert forall|a: int, b: int| 0 <= a < b < table@.len() implies (#[trigger] table@[a]).0@
            != (#[trigger] table@[b]).0@ by {
            if b < before.len() {
                assert(before[a].0@ != before[b].0@);
            } else {
                assert(before[a].0@ != key@);
            }
        }
    }
}

/// A copy of a pair.
fn copy_pair(pair: &PairInfo) -> (r: PairInfo)
    ensures
        r == *pair,
{
    let assets: [AssetInfo; 2] = [copy_asset(&pair.asset_infos[0]), copy_asset(&pair.asset_infos[1])];
    assert(assets =~= pair.asset_infos);
    PairInfo {
        asset_infos: assets,
        contract_addr: pair.contract_addr.clone(),
        liquidity_token: pair.liquidity_token.clone(),
        asset_decimals: pair.asset_decimals,
        burn_address: pair.burn_address.clone(),
        fee_wallet_address: pair.fee_wallet_address.clone(),
    }
}

/// The table of `pairs`, each filed under its sort key; a later pair with the
/// same key replaces an earlier one.
pub fn pairs_to_map(pairs: &[(&String, &PairInfo)]) -> (r: Vec<(String, PairInfo)>)
    ensures
        keys_unique(r@),
        entries_map(r@) == pairs_map(pairs@),
{
    let mut table: Vec<(String, PairInfo)> = Vec::new();
    let mut i: usize = 0;
    while i < pairs.len()
        invariant
            i <= pairs@.len(),
            keys_unique(table@),
            entries_map(table@) == pairs_map(pairs@.take(i as int)),
        decreases pairs.len() - i,
    {
        let (key, pair) = pairs[i];
        assert(pairs@.take(i + 1).drop_last() =~= pairs@.take(i as int));
        insert_entry(&mut table, sorted_key(key), copy_pair(pair));
        i = i + 1;
    }
    assert(pairs@.take(i as int) =~= pairs@);
    table
}

/// The table of the decimals of native denominations; a later entry for a
/// denomination replaces an earlier one.
pub fn native_token_decimals_to_map(native_token_decimals: &[(String, u8)]) -> (r: Vec<(String, u8)>)
    ensures
        keys_unique(r@),
        entries_map(r@) == entries_map(native_token_decimals@),
{
    let mut table: Vec<(String, u8)> = Vec::new();
    let mut i: usize = 0;
    while i < native_token_decimals.len()
        invariant
            i <= native_token_decimals@.len(),
            keys_unique(table@),
            entries_map(table@) == entries_map(native_token_decimals@.take(i as int)),
        decreases native_token_decimals.len() - i,
    {
        let denom = native_token_decimals[i].0.clone();
        let decimals = native_token_decimals[i].1;
        assert(native_token_decimals@.take(i + 1).drop_last() =~= native_token_decimals@.take(
            i as int,
        ));
        insert_entry(&mut table, denom, decimals);
        i = i + 1;
    }
    assert(native_token_decimals@.take(i as int) =~= native_token_decimals@);
    table
}

/// The index of `key` in a table with unique keys, if it is there.
fn find_entry<V>(table: &Vec<(String, V)>, key: &String) -> (r: Option<usize>)
    requires
        keys_unique(table@),
    ensures
        match r {
            Some(i) => i < table@.len() && entries_map(table@).contains_key(key@) && entries_map(
                table@,
            )[key@] == table@[i as int].1,
            None => !entries_map(table@).contains_key(key@),
        },
{
    let mut i: usize = 0;
    while i < table.len()
        invariant
            i <= table@.len(),
            keys_unique(table@),
            forall|j: int| 0 <= j < i ==> (#[trigger] table@[j]).0@ != key@,
        decreases table.len() - i,
    {
        if table[i].0 == *key {
            proof {
                lemma_entries_lookup(table@, key@);
            }
            return Some(i);
        }
        i = i + 1;
    }
    proof {
        lemma_entries_lookup(table@, key@);
    }
    None
}

/// The balances that filing `balances` in order records, by account.
pub open spec fn account_balances(balances: Seq<(&String, &u128)>) -> Map<Seq<char>, u128>
    decreases balances.len(),
{
    if balances.len() == 0 {
        Map::empty()
    } else {
        account_balances(balances.drop_last()).insert(balances.last().0@, *balances.last().1)
    }
}

/// The balances that filing `balances` in order records, by token contract
/// and then by account; a later list for a contract replaces an earlier one.
pub open spec fn token_balances(balances: Seq<(&String, &[(&String, &u128)])>) -> Map<
    Seq<char>,
    Map<Seq<char>, u128>,
>
    decreases balances.len(),
{
    if balances.len() == 0 {
        Map::empty()
    } else {
        token_balances(balances.drop_last()).insert(
            balances.last().0@,
            account_balances(balances.last().1@),
        )
    }
}

/// A table of tables, read as a map of maps.
pub open spec fn nested_map(table: Seq<(String, Vec<(String, u128)>)>) -> Map<
    Seq<char>,
    Map<Seq<char>, u128>,
> {
    entries_map(table).map_values(|t: Vec<(String, u128)>| entries_map(t@))
}

/// Every inner table of `table` has unique keys.
pub open spec fn inner_keys_unique(table: Seq<(String, Vec<(String, u128)>)>) -> bool {
    forall|k: Seq<char>|
        #[trigger] entries_map(table).contains_key(k) ==> keys_unique(entries_map(table)[k]@)
}

/// The table of one contract's balances; a later entry for an account
/// replaces an earlier one.
fn account_table(balances: &[(&String, &u128)]) -> (r: Vec<(String, u128)>)
    ensures
        keys_unique(r@),
        entries_map(r@) == account_balances(balances@),
{
    let mut table: Vec<(String, u128)> = Vec::new();
    let mut i: usize = 0;
    while i < balances.len()
        invariant
            i <= balances@.len(),
            keys_unique(table@),
            entries_map(table@) == account_balances(balances@.take(i as int)),
        decreases balances.len() - i,
    {
        let (addr, balance) = balances[i];
        assert(balances@.take(i + 1).drop_last() =~= balances@.take(i as int));
        insert_entry(&mut table, addr.clone(), *balance);
        i = i + 1;
    }
    assert(balances@.take(i as int) =~= balances@);
    table
}

/// The table of token balances, by contract and then by account.
pub fn balances_to_map(balances: &[(&String, &[(&String, &u128)])]) -> (r: Vec<
    (String, Vec<(String, u128)>),
>)
    ensures
        keys_unique(r@),
        inner_keys_unique(r@),
        nested_map(r@) == token_balances(balances@),
{
    let mut table: Vec<(String, Vec<(String, u128)>)> = Vec::new();
    let mut i: usize = 0;
    assert(nested_map(table@) =~= token_balances(balances@.take(0)));
    while i < balances.len()
        invariant
            i <= balances@.len(),
            keys_unique(table@),
            inner_keys_unique(table@),
            nested_map(table@) == token_balances(balances@.take(i as int)),
        decreases balances.len() - i,
    {
        let (contract_addr, accounts) = balances[i];
        assert(balances@.take(i + 1).drop_last() =~= balances@.take(i as int));
        let inner = account_table(accounts);
        let ghost before = entries_map(table@);
        let ghost inner_view = inner@;
        let ghost key = contract_addr@;
        insert_entry(&mut table, contract_addr.clone(), inner);
        proof {
            assert(entries_map(table@) == before.insert(key, inner));
            assert(nested_map(table@) =~= token_balances(balances@.take(i + 1)));
            assert forall|k: Seq<char>| #[trigger] entries_map(table@).contains_key(k) implies keys_unique(
                entries_map(table@)[k]@,
            ) by {
                if k != key {
                    assert(before.contains_key(k));
                }
            }
        }
        i = i + 1;
    }
    assert(balances@.take(i as int) =~= balances@);
    table
}

/// Cw20 balances that a test querier reports, by token contract and then by
/// account.
#[derive(Clone, Debug)]
pub struct TokenQuerier {
    balances: Vec<(String, Vec<(String, u128)>)>,
}

impl TokenQuerier {
    /// The known balances, by token contract and then by account.
    pub closed spec fn balance_map(&self) -> Map<Seq<char>, Map<Seq<char>, u128>> {
        nested_map(self.balances@)
    }

    /// Each contract and each account under it is filed once.
    pub closed spec fn wf(&self) -> bool {
        keys_unique(self.balances@) && inner_keys_unique(self.balances@)
    }

    /// A querier that knows `balances`.
    pub fn new(balances: &[(&String, &[(&String, &u128)])]) -> (r: Self)
        ensures
            r.wf(),
            r.balance_map() == token_balances(balances@),
    {
        TokenQuerier { balances: balances_to_map(balances) }
    }

    /// The balance of `address` in the token contract `contract_addr`.
    pub fn balance(&self, contract_addr: &String, address: &String) -> (r: Option<u128>)
        requires
            self.wf(),
        ensures
            r == if self.balance_map().contains_key(contract_addr@)
                && self.balance_map()[contract_addr@].contains_key(address@) {
                Some(self.balance_map()[contract_addr@][address@])
            } else {
                None::<u128>
            },
    {
        match find_entry(&self.balances, contract_addr) {
            Some(i) => {
                let accounts = &self.balances[i].1;
                match find_entry(accounts, address) {
                    Some(j) => Some(accounts[j].1),
                    None => None,
                }
            },
            None => None,
        }
    }
}

impl Default for TokenQuerier {
    fn default() -> (r: Self)
        ensures
            r.wf(),
            r.balance_map() == Map::<Seq<char>, Map<Seq<char>, u128>>::empty(),
    {
        let r = TokenQuerier { balances: Vec::new() };
        assert(r.balance_map() =~= Map::<Seq<char>, Map<Seq<char>, u128>>::empty());
        r
    }
}

/// The factory's answers: pairs filed under the sort key of their assets'
/// names, and the decimals of native denominations.
#[derive(Clone, Debug)]
pub struct ChoiceFactoryQuerier {
    pairs: Vec<(String, PairInfo)>,
    native_token_decimals: Vec<(String, u8)>,
}

impl ChoiceFactoryQuerier {
    /// The known pairs, by sort key.
    pub closed spec fn pair_map(&self) -> Map<Seq<char>, PairInfo> {
        entries_map(self.pairs@)
    }

    /// The known decimals, by denomination.
    pub closed spec fn decimals_map(&self) -> Map<Seq<char>, u8> {
        entries_map(self.native_token_decimals@)
    }

    /// Each key is filed once.
    pub closed spec fn wf(&self) -> bool {
        keys_unique(self.pairs@) && keys_unique(self.native_token_decimals@)
    }

    /// A querier that knows `pairs`, each filed under the sort key of its
    /// name, and `native_token_decimals`.
    pub fn new(pairs: &[(&String, &PairInfo)], native_token_decimals: &[(String, u8)]) -> (r: Self)
        ensures
            r.wf(),
            r.pair_map() == pairs_map(pairs@),
            r.decimals_map() == entries_map(native_token_decimals@),
    {
        ChoiceFactoryQuerier {
            pairs: pairs_to_map(pairs),
            native_token_decimals: native_token_decimals_to_map(native_token_decimals),
        }
    }

    /// The pair filed under the sort key of `asset_names`, the two assets'
    /// names written one after the other.
    pub fn pair(&self, asset_names: &String) -> (r: Option<PairInfo>)
        requires
            self.wf(),
        ensures
            r == if self.pair_map().contains_key(sort_key(asset_names@)) {
                Some(self.pair_map()[sort_key(asset_names@)])
            } else {
                None::<PairInfo>
            },
    {
        let key = sorted_key(asset_names);
        match find_entry(&self.pairs, &key) {
            Some(i) => Some(copy_pair(&self.pairs[i].1)),
            None => None,
        }
    }

    /// The decimals of the native denomination `denom`.
    pub fn native_decimals(&self, denom: &String) -> (r: Option<u8>)
        requires
            self.wf(),
        ensures
            r == if self.decimals_map().contains_key(denom@) {
                Some(self.decimals_map()[denom@])
            } else {
                None::<u8>
            },
    {
        match find_entry(&self.native_token_decimals, denom) {
            Some(i) => Some(self.native_token_decimals[i].1),
            None => None,
        }
    }
}

impl Default for ChoiceFactoryQuerier {
    fn default() -> (r: Self)
        ensures
            r.wf(),
            r.pair_map() == Map::<Seq<char>, PairInfo>::empty(),
            r.decimals_map() == Map::<Seq<char>, u8>::empty(),
    {
        ChoiceFactoryQuerier { pairs: Vec::new(), native_token_decimals: Vec::new() }
    }
}

} // verus!
