use choice_farm::mock_querier::{
    balances_to_map, native_token_decimals_to_map, pairs_to_map, ChoiceFactoryQuerier, PairInfo,
    TokenQuerier,
};
use choice_farm::state::AssetInfo;

fn pair(addr: &str) -> PairInfo {
    PairInfo {
        asset_infos: [
            AssetInfo::NativeToken { denom: "inj".to_string() },
            AssetInfo::NativeToken { denom: "uusd".to_string() },
        ],
        contract_addr: addr.to_string(),
        liquidity_token: "liquidity0000".to_string(),
        asset_decimals: [6, 6],
        burn_address: "burnaddr0000".to_string(),
        fee_wallet_address: "feeaddr0000".to_string(),
    }
}

#[test]
fn pairs_are_filed_under_sorted_key() {
    let key = "injuusd".to_string();
    let p = pair("pair0000");
    let table = pairs_to_map(&[(&key, &p)]);
    assert_eq!(table.len(), 1);
    assert_eq!(table[0].0, "uusnjid");
    assert_eq!(table[0].1, p);
}

#[test]
fn later_pair_with_same_key_replaces_earlier() {
    let k1 = "injuusd".to_string();
    let k2 = "uusdinj".to_string();
    let p1 = pair("pair0000");
    let p2 = pair("pair0001");
    let table = pairs_to_map(&[(&k1, &p1), (&k2, &p2)]);
    assert_eq!(table.len(), 1);
    assert_eq!(table[0].1.contract_addr, "pair0001");
}

#[test]
fn decimals_table_keeps_last_entry() {
    let table = native_token_decimals_to_map(&[
        ("uusd".to_string(), 6),
        ("inj".to_string(), 18),
        ("uusd".to_string(), 8),
    ]);
    assert_eq!(table.len(), 2);
    assert!(table.contains(&("uusd".to_string(), 8)));
    assert!(table.contains(&("inj".to_string(), 18)));
}

#[test]
fn querier_answers_by_either_asset_order() {
    let key = "injuusd".to_string();
    let p = pair("pair0000");
    let q = ChoiceFactoryQuerier::new(&[(&key, &p)], &[("uusd".to_string(), 6)]);
    assert_eq!(q.pair(&"uusdinj".to_string()), Some(p.clone()));
    assert_eq!(q.pair(&"injuusd".to_string()), Some(p));
    assert_eq!(q.pair(&"injulunc".to_string()), None);
    assert_eq!(q.native_decimals(&"uusd".to_string()), Some(6));
    assert_eq!(q.native_decimals(&"inj".to_string()), None);
}

#[test]
fn default_querier_knows_nothing() {
    let q = ChoiceFactoryQuerier::default();
    assert_eq!(q.pair(&"injuusd".to_string()), None);
    assert_eq!(q.native_decimals(&"uusd".to_string()), None);
}

#[test]
fn token_querier_reports_balances() {
    let token = "token0000".to_string();
    let other = "token0001".to_string();
    let a = "addr0000".to_string();
    let b = "addr0001".to_string();
    let (x, y, z) = (100u128, 5u128, 7u128);
    let first: &[(&String, &u128)] = &[(&a, &x), (&b, &y)];
    let second: &[(&String, &u128)] = &[(&a, &z)];
    let q = TokenQuerier::new(&[(&token, first), (&other, second)]);
    assert_eq!(q.balance(&token, &a), Some(100));
    assert_eq!(q.balance(&token, &b), Some(5));
    assert_eq!(q.balance(&other, &a), Some(7));
    assert_eq!(q.balance(&other, &b), None);
    assert_eq!(q.balance(&"token0002".to_string(), &a), None);
    assert_eq!(TokenQuerier::default().balance(&token, &a), None);
}

#[test]
fn later_balance_list_for_contract_replaces_earlier() {
    let token = "token0000".to_string();
    let a = "addr0000".to_string();
    let (x, y) = (1u128, 2u128);
    let first: &[(&String, &u128)] = &[(&a, &x)];
    let second: &[(&String, &u128)] = &[(&a, &y), (&a, &x)];
    let table = balances_to_map(&[(&token, first), (&token, second)]);
    assert_eq!(table.len(), 1);
    assert_eq!(table[0].1, vec![("addr0000".to_string(), 1u128)]);
}
