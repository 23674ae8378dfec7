use price_oracle::asset::Asset;
use price_oracle::oracle::{Oracle, OracleError};
use price_oracle::price::PriceData;
use soroban_sdk::testutils::{EnvTestConfig, Ledger};
use soroban_sdk::Env;

const ADMIN: &str = "GADMINAAAAAAAAAAAAAAAAAAAAAAAAAAAAAAAAAAAAAAAAAAAAAAAAAA";
const OTHER: &str = "GOTHERAAAAAAAAAAAAAAAAAAAAAAAAAAAAAAAAAAAAAAAAAAAAAAAAAA";

fn admin() -> String {
    ADMIN.to_string()
}

fn stranger() -> String {
    OTHER.to_string()
}

fn base() -> Asset {
    Asset::Stellar("CBASEAAAAAAAAAAAAAAAAAAAAAAAAAAAAAAAAAAAAAAAAAAAAAAAAAAA".to_string())
}

fn asset_y() -> Asset {
    Asset::Stellar("CYAAAAAAAAAAAAAAAAAAAAAAAAAAAAAAAAAAAAAAAAAAAAAAAAAAAAAA".to_string())
}

fn asset_btc() -> Asset {
    Asset::Other("BTC".to_string())
}

fn test_env() -> Env {
    Env::new_with_config(EnvTestConfig { capture_snapshot_at_drop: false })
}

fn ready() -> Oracle {
    let mut oracle = Oracle::new();
    assert_eq!(oracle.initialize(&admin(), admin(), base(), 7, 300), Ok(()));
    oracle
}

fn two_observations() -> Oracle {
    let mut oracle = ready();
    assert_eq!(oracle.add_price_at(&admin(), 0, asset_y(), 1000000, 100), Ok(()));
    assert_eq!(oracle.add_price_at(&admin(), 0, asset_y(), 1000500, 200), Ok(()));
    oracle
}

#[test]
fn accessors_fail_before_initialize() {
    let oracle = Oracle::new();
    assert_eq!(oracle.base(), Err(OracleError::Uninitialized));
    assert_eq!(oracle.admin(), Err(OracleError::Uninitialized));
    assert_eq!(oracle.decimals(), Err(OracleError::Uninitialized));
    assert_eq!(oracle.resolution(), Err(OracleError::Uninitialized));
}

#[test]
fn queries_are_empty_before_initialize() {
    let oracle = Oracle::new();
    assert_eq!(oracle.sources(), Vec::<u32>::new());
    assert_eq!(oracle.assets(), Vec::<Asset>::new());
    assert_eq!(oracle.prices(&asset_y(), 0, u64::MAX), vec![]);
    assert_eq!(oracle.lastprices(&asset_y(), 5), vec![]);
    assert_eq!(oracle.lastprice(&asset_y()), None);
}

#[test]
fn initialize_sets_the_configuration() {
    let oracle = ready();
    assert_eq!(oracle.base(), Ok(base()));
    assert_eq!(oracle.admin(), Ok(admin()));
    assert_eq!(oracle.decimals(), Ok(7));
    assert_eq!(oracle.resolution(), Ok(300));
    assert_eq!(oracle.sources(), Vec::<u32>::new());
}

#[test]
fn first_initialize_needs_no_administrator() {
    let mut oracle = Oracle::new();
    assert_eq!(oracle.initialize(&stranger(), admin(), base(), 7, 300), Ok(()));
    assert_eq!(oracle.admin(), Ok(admin()));
}

#[test]
fn initialize_again_by_the_administrator_resets_the_store() {
    let mut oracle = two_observations();
    assert_eq!(oracle.initialize(&admin(), stranger(), asset_btc(), 2, 60), Ok(()));
    assert_eq!(oracle.base(), Ok(asset_btc()));
    assert_eq!(oracle.admin(), Ok(stranger()));
    assert_eq!(oracle.decimals(), Ok(2));
    assert_eq!(oracle.resolution(), Ok(60));
    assert_eq!(oracle.sources(), Vec::<u32>::new());
    assert_eq!(oracle.lastprice(&asset_y()), None);
    // The administrator has changed: the former one is now a stranger.
    assert_eq!(
        oracle.add_price_at(&admin(), 0, asset_y(), 1, 1),
        Err(OracleError::Unauthorized)
    );
    assert_eq!(oracle.add_price_at(&stranger(), 0, asset_y(), 1, 1), Ok(()));
}

#[test]
fn initialize_again_by_a_stranger_is_refused() {
    let mut oracle = two_observations();
    assert_eq!(
        oracle.initialize(&stranger(), stranger(), asset_btc(), 2, 60),
        Err(OracleError::Unauthorized)
    );
    assert_eq!(oracle.base(), Ok(base()));
    assert_eq!(oracle.admin(), Ok(admin()));
    assert_eq!(oracle.decimals(), Ok(7));
    assert_eq!(oracle.resolution(), Ok(300));
    assert_eq!(oracle.lastprices(&asset_y(), 10).len(), 2);
}

#[test]
fn scenario_append_then_query_by_the_ledger_clock() {
    let env = test_env();
    let mut oracle = ready();

    env.ledger().set_timestamp(100);
    assert_eq!(oracle.add_price(&env, &admin(), 0, asset_y(), 1000000), Ok(()));
    assert_eq!(
        oracle.lastprice(&asset_y()),
        Some(PriceData { price: 1000000, timestamp: 100 })
    );

    env.ledger().set_timestamp(200);
    assert_eq!(oracle.add_price(&env, &admin(), 0, asset_y(), 1000500), Ok(()));
    assert_eq!(
        oracle.prices(&asset_y(), 0, 150),
        vec![PriceData { price: 1000000, timestamp: 100 }]
    );
    assert_eq!(
        oracle.prices(&asset_y(), 0, 200),
        vec![
            PriceData { price: 1000000, timestamp: 100 },
            PriceData { price: 1000500, timestamp: 200 }
        ]
    );
    assert_eq!(
        oracle.lastprices(&asset_y(), 1),
        vec![PriceData { price: 1000500, timestamp: 200 }]
    );
}

#[test]
fn add_price_stamps_with_the_current_ledger_time() {
    let env = test_env();
    let mut oracle = ready();
    env.ledger().set_timestamp(1_700_000_000);
    assert_eq!(oracle.add_price(&env, &admin(), 3, asset_btc(), -5), Ok(()));
    env.ledger().set_timestamp(1_700_000_300);
    assert_eq!(oracle.add_price(&env, &admin(), 3, asset_btc(), 6), Ok(()));
    assert_eq!(
        oracle.lastprices_by_source(3, &asset_btc(), 2),
        vec![
            PriceData { price: -5, timestamp: 1_700_000_000 },
            PriceData { price: 6, timestamp: 1_700_000_300 }
        ]
    );
}

#[test]
fn scenario_add_price_by_a_stranger_is_unauthorized() {
    let env = test_env();
    env.ledger().set_timestamp(300);
    let mut oracle = two_observations();
    assert_eq!(
        oracle.add_price(&env, &stranger(), 0, asset_y(), 7),
        Err(OracleError::Unauthorized)
    );
    assert_eq!(
        oracle.add_price_at(&stranger(), 0, asset_y(), 7, 300),
        Err(OracleError::Unauthorized)
    );
    assert_eq!(oracle.lastprices(&asset_y(), u32::MAX).len(), 2);
    assert_eq!(
        oracle.lastprice(&asset_y()),
        Some(PriceData { price: 1000500, timestamp: 200 })
    );
}

#[test]
fn add_price_before_initialize_is_uninitialized() {
    let env = test_env();
    let mut oracle = Oracle::new();
    assert_eq!(
        oracle.add_price(&env, &admin(), 0, asset_y(), 7),
        Err(OracleError::Uninitialized)
    );
    assert_eq!(
        oracle.add_price_at(&admin(), 0, asset_y(), 7, 1),
        Err(OracleError::Uninitialized)
    );
    assert_eq!(
        oracle.remove_prices(&admin(), &vec![], &vec![], Some(1), Some(1)),
        Err(OracleError::Uninitialized)
    );
    assert_eq!(oracle.sources(), Vec::<u32>::new());
}

#[test]
fn scenario_remove_prices_with_equal_bounds_keeps_both() {
    let mut oracle = two_observations();
    assert_eq!(
        oracle.remove_prices(&admin(), &vec![], &vec![], Some(150), Some(150)),
        Ok(())
    );
    assert_eq!(
        oracle.prices(&asset_y(), 0, u64::MAX),
        vec![
            PriceData { price: 1000000, timestamp: 100 },
            PriceData { price: 1000500, timestamp: 200 }
        ]
    );
}

#[test]
fn remove_prices_by_a_stranger_is_unauthorized() {
    let mut oracle = two_observations();
    assert_eq!(
        oracle.remove_prices(&stranger(), &vec![], &vec![], Some(200), Some(100)),
        Err(OracleError::Unauthorized)
    );
    assert_eq!(oracle.lastprices(&asset_y(), 10).len(), 2);
}

#[test]
fn appends_keep_order_and_count() {
    let mut oracle = ready();
    let times: [u64; 5] = [10, 20, 20, 35, 90];
    for (i, t) in times.iter().enumerate() {
        assert_eq!(oracle.add_price_at(&admin(), 4, asset_btc(), i as i128, *t), Ok(()));
    }
    let history = oracle.lastprices_by_source(4, &asset_btc(), u32::MAX);
    assert_eq!(history.len(), 5);
    for i in 0..5 {
        assert_eq!(history[i], PriceData { price: i as i128, timestamp: times[i] });
    }
    for i in 1..5 {
        assert!(history[i - 1].timestamp <= history[i].timestamp);
    }
}

#[test]
fn range_query_is_inclusive_on_both_ends() {
    let oracle = two_observations();
    assert_eq!(
        oracle.prices_by_source(0, &asset_y(), 100, 200),
        vec![
            PriceData { price: 1000000, timestamp: 100 },
            PriceData { price: 1000500, timestamp: 200 }
        ]
    );
    assert_eq!(
        oracle.prices_by_source(0, &asset_y(), 101, 200),
        vec![PriceData { price: 1000500, timestamp: 200 }]
    );
    assert_eq!(
        oracle.prices_by_source(0, &asset_y(), 100, 199),
        vec![PriceData { price: 1000000, timestamp: 100 }]
    );
    assert_eq!(oracle.prices_by_source(0, &asset_y(), 101, 199), vec![]);
}

#[test]
fn range_query_with_crossed_bounds_or_absent_pair_is_empty() {
    let oracle = two_observations();
    assert_eq!(oracle.prices_by_source(0, &asset_y(), 200, 100), vec![]);
    assert_eq!(oracle.prices_by_source(1, &asset_y(), 0, u64::MAX), vec![]);
    assert_eq!(oracle.prices_by_source(0, &asset_btc(), 0, u64::MAX), vec![]);
    // An asset of the other kind with the same text is another asset.
    let same_text = Asset::Other("CYAAAAAAAAAAAAAAAAAAAAAAAAAAAAAAAAAAAAAAAAAAAAAAAAAAAAAA".to_string());
    assert_eq!(oracle.prices_by_source(0, &same_text, 0, u64::MAX), vec![]);
}

#[test]
fn last_prices_returns_the_tail_in_stored_order() {
    let mut oracle = two_observations();
    assert_eq!(oracle.add_price_at(&admin(), 0, asset_y(), 1001000, 300), Ok(()));
    assert_eq!(oracle.lastprices(&asset_y(), 0), vec![]);
    assert_eq!(
        oracle.lastprices(&asset_y(), 2),
        vec![
            PriceData { price: 1000500, timestamp: 200 },
            PriceData { price: 1001000, timestamp: 300 }
        ]
    );
    assert_eq!(oracle.lastprices(&asset_y(), 3).len(), 3);
    assert_eq!(
        oracle.lastprices(&asset_y(), 4),
        vec![
            PriceData { price: 1000000, timestamp: 100 },
            PriceData { price: 1000500, timestamp: 200 },
            PriceData { price: 1001000, timestamp: 300 }
        ]
    );
    assert_eq!(oracle.lastprices_by_source(9, &asset_y(), 4), vec![]);
}

#[test]
fn latest_is_the_sole_element_of_the_last_one() {
    let oracle = two_observations();
    let last = oracle.lastprices_by_source(0, &asset_y(), 1);
    assert_eq!(last.len(), 1);
    assert_eq!(oracle.lastprice_by_source(0, &asset_y()), Some(last[0]));
    assert_eq!(oracle.lastprice_by_source(0, &asset_btc()), None);
    assert_eq!(oracle.lastprices_by_source(0, &asset_btc(), 1), vec![]);
}

#[test]
fn queries_without_a_source_read_source_zero() {
    let mut oracle = two_observations();
    assert_eq!(oracle.add_price_at(&admin(), 1, asset_y(), 42, 250), Ok(()));
    assert_eq!(
        oracle.prices(&asset_y(), 50, 250),
        oracle.prices_by_source(0, &asset_y(), 50, 250)
    );
    assert_eq!(oracle.lastprices(&asset_y(), 5), oracle.lastprices_by_source(0, &asset_y(), 5));
    assert_eq!(oracle.lastprice(&asset_y()), oracle.lastprice_by_source(0, &asset_y()));
    assert_eq!(
        oracle.lastprice(&asset_y()),
        Some(PriceData { price: 1000500, timestamp: 200 })
    );
    assert_eq!(
        oracle.lastprice_by_source(1, &asset_y()),
        Some(PriceData { price: 42, timestamp: 250 })
    );
}

#[test]
fn sources_and_assets_list_every_key() {
    let mut oracle = two_observations();
    assert_eq!(oracle.add_price_at(&admin(), 1, asset_y(), 42, 250), Ok(()));
    assert_eq!(oracle.add_price_at(&admin(), 1, asset_btc(), 43, 260), Ok(()));
    let mut sources = oracle.sources();
    sources.sort();
    assert_eq!(sources, vec![0, 1]);
    let assets = oracle.assets();
    assert_eq!(assets.len(), 3);
    assert_eq!(assets.iter().filter(|a| **a == asset_y()).count(), 2);
    assert_eq!(assets.iter().filter(|a| **a == asset_btc()).count(), 1);
}
