use price_oracle::asset::Asset;
use price_oracle::history::{is_kept, select_last, select_range, select_retained};
use price_oracle::keys::DataKey;
use price_oracle::price::PriceData;
use price_oracle::store::{is_asset_in_vec, is_u32_in_vec, PriceStore};

fn usd() -> Asset {
    Asset::Other("USD".to_string())
}

fn eur() -> Asset {
    Asset::Other("EUR".to_string())
}

fn account() -> Asset {
    Asset::Stellar("GAAAAAAAAAAAAAAAAAAAAAAAAAAAAAAAAAAAAAAAAAAAAAAAAAAAAAAA".to_string())
}

fn obs(price: i128, timestamp: u64) -> PriceData {
    PriceData::new(price, timestamp)
}

/// Sources 1 and 2; source 1 quotes USD at 100, 150, 200 and EUR at 150;
/// source 2 quotes USD at 150 and the account at 120, 180.
fn sample() -> PriceStore {
    let mut store = PriceStore::new();
    store.append(1, usd(), obs(10, 100));
    store.append(1, usd(), obs(11, 150));
    store.append(1, usd(), obs(12, 200));
    store.append(1, eur(), obs(20, 150));
    store.append(2, usd(), obs(30, 150));
    store.append(2, account(), obs(40, 120));
    store.append(2, account(), obs(41, 180));
    store
}

fn all_pairs(store: &PriceStore) -> Vec<(u32, Asset, Vec<PriceData>)> {
    let mut pairs = Vec::new();
    let mut sources = store.sources();
    sources.sort();
    for source in sources {
        for asset in store.assets_of(source) {
            let history = store.history(source, &asset);
            pairs.push((source, asset, history));
        }
    }
    pairs
}

#[test]
fn price_data_new_keeps_its_arguments() {
    let data = PriceData::new(-17, 99);
    assert_eq!(data.price, -17);
    assert_eq!(data.timestamp, 99);
    assert_eq!(data, PriceData { price: -17, timestamp: 99 });
    let extreme = PriceData::new(i128::MIN, u64::MAX);
    assert_eq!(extreme.price, i128::MIN);
    assert_eq!(extreme.timestamp, u64::MAX);
}

#[test]
fn data_keys_have_distinct_slots() {
    assert_eq!(DataKey::Base.slot(), 0);
    assert_eq!(DataKey::Decimals.slot(), 1);
    assert_eq!(DataKey::Resolution.slot(), 2);
    assert_eq!(DataKey::Admin.slot(), 3);
    assert_eq!(DataKey::Prices.slot(), 4);
}

#[test]
fn assets_compare_by_kind_and_text() {
    assert_eq!(usd(), Asset::Other("USD".to_string()));
    assert_ne!(usd(), eur());
    assert_ne!(Asset::Other("X".to_string()), Asset::Stellar("X".to_string()));
    assert_eq!(account().clone(), account());
}

#[test]
fn membership_of_sources_and_assets() {
    assert!(is_u32_in_vec(3, &vec![1, 2, 3]));
    assert!(!is_u32_in_vec(4, &vec![1, 2, 3]));
    assert!(!is_u32_in_vec(0, &vec![]));
    assert!(is_asset_in_vec(&usd(), &vec![eur(), usd()]));
    assert!(!is_asset_in_vec(&account(), &vec![eur(), usd()]));
    assert!(!is_asset_in_vec(&usd(), &vec![]));
}

#[test]
fn keep_rule_on_single_timestamps() {
    // With a bound missing everything is kept.
    assert!(is_kept(None, None, 5));
    assert!(is_kept(Some(5), None, 5));
    assert!(is_kept(None, Some(5), 5));
    // With both: kept when later than start or earlier than end.
    assert!(is_kept(Some(150), Some(150), 100));
    assert!(is_kept(Some(150), Some(150), 200));
    assert!(!is_kept(Some(150), Some(150), 150));
    assert!(!is_kept(Some(200), Some(100), 100));
    assert!(!is_kept(Some(200), Some(100), 150));
    assert!(!is_kept(Some(200), Some(100), 200));
    assert!(is_kept(Some(200), Some(100), 99));
    assert!(is_kept(Some(200), Some(100), 201));
    // Bounds in the usual order drop nothing.
    assert!(is_kept(Some(100), Some(200), 100));
    assert!(is_kept(Some(100), Some(200), 150));
    assert!(is_kept(Some(100), Some(200), 200));
}

#[test]
fn selections_from_a_history() {
    let history = vec![obs(1, 10), obs(2, 20), obs(3, 20), obs(4, 30)];
    assert_eq!(select_range(&history, 20, 20), vec![obs(2, 20), obs(3, 20)]);
    assert_eq!(select_range(&history, 0, 9), vec![]);
    assert_eq!(select_range(&history, 30, 10), vec![]);
    assert_eq!(select_last(&history, 3), vec![obs(2, 20), obs(3, 20), obs(4, 30)]);
    assert_eq!(select_last(&history, 0), vec![]);
    assert_eq!(select_last(&history, u32::MAX), history);
    assert_eq!(select_retained(&history, Some(20), Some(20)), vec![obs(1, 10), obs(4, 30)]);
    assert_eq!(select_retained(&history, Some(30), Some(10)), vec![]);
    assert_eq!(select_retained(&history, None, Some(0)), history);
    assert_eq!(select_range(&vec![], 0, u64::MAX), vec![]);
    assert_eq!(select_last(&vec![], 4), vec![]);
}

#[test]
fn prune_without_bounds_changes_nothing() {
    let mut store = sample();
    let before = all_pairs(&store);
    store.prune(&vec![], &vec![], None, None);
    assert_eq!(all_pairs(&store), before);
    store.prune(&vec![], &vec![], Some(0), None);
    assert_eq!(all_pairs(&store), before);
    store.prune(&vec![1], &vec![usd()], None, Some(u64::MAX));
    assert_eq!(all_pairs(&store), before);
    assert_eq!(before.len(), 4);
}

#[test]
fn prune_of_one_pair_leaves_the_others() {
    let mut store = sample();
    store.prune(&vec![1], &vec![usd()], Some(150), Some(150));
    assert_eq!(store.history(1, &usd()), vec![obs(10, 100), obs(12, 200)]);
    assert_eq!(store.history(1, &eur()), vec![obs(20, 150)]);
    assert_eq!(store.history(2, &usd()), vec![obs(30, 150)]);
    assert_eq!(store.history(2, &account()), vec![obs(40, 120), obs(41, 180)]);
}

#[test]
fn prune_drops_what_lies_between_end_and_start() {
    let mut store = sample();
    store.prune(&vec![2], &vec![account()], Some(180), Some(120));
    assert_eq!(store.history(2, &account()), vec![]);
    assert_eq!(store.assets_of(2), vec![usd()]);
    assert_eq!(store.history(2, &usd()), vec![obs(30, 150)]);

    let mut store = sample();
    store.prune(&vec![1], &vec![usd()], Some(160), Some(120));
    assert_eq!(store.history(1, &usd()), vec![obs(10, 100), obs(12, 200)]);
}

#[test]
fn prune_with_empty_filters_considers_everything() {
    let mut store = sample();
    store.prune(&vec![], &vec![], Some(150), Some(150));
    assert_eq!(store.history(1, &usd()), vec![obs(10, 100), obs(12, 200)]);
    assert_eq!(store.history(1, &eur()), vec![]);
    assert_eq!(store.history(2, &usd()), vec![]);
    assert_eq!(store.history(2, &account()), vec![obs(40, 120), obs(41, 180)]);
    assert_eq!(store.assets_of(1), vec![usd()]);
    assert_eq!(store.assets_of(2), vec![account()]);
}

#[test]
fn prune_drops_a_source_left_without_assets() {
    let mut store = sample();
    store.prune(&vec![2], &vec![], Some(200), Some(100));
    assert_eq!(store.sources(), vec![1]);
    assert_eq!(store.assets_of(2), vec![]);
    assert_eq!(store.assets(), vec![usd(), eur()]);
    assert_eq!(store.history(1, &usd()).len(), 3);
    assert_eq!(store.latest(2, &usd()), None);
}

#[test]
fn prune_by_asset_filter_reaches_every_source() {
    let mut store = sample();
    store.prune(&vec![], &vec![usd()], Some(150), Some(100));
    assert_eq!(store.history(1, &usd()), vec![obs(12, 200)]);
    assert_eq!(store.history(2, &usd()), vec![]);
    assert_eq!(store.history(1, &eur()), vec![obs(20, 150)]);
    assert_eq!(store.history(2, &account()), vec![obs(40, 120), obs(41, 180)]);
}

#[test]
fn prune_with_filters_that_match_nothing_changes_nothing() {
    let mut store = sample();
    let before = all_pairs(&store);
    store.prune(&vec![7], &vec![], Some(u64::MAX), Some(0));
    assert_eq!(all_pairs(&store), before);
    store.prune(&vec![], &vec![Asset::Other("JPY".to_string())], Some(u64::MAX), Some(0));
    assert_eq!(all_pairs(&store), before);
}

#[test]
fn prune_keeps_the_order_of_the_survivors() {
    let mut store = PriceStore::new();
    for (i, t) in [5u64, 10, 15, 20, 25, 30].iter().enumerate() {
        store.append(0, usd(), obs(i as i128, *t));
    }
    store.prune(&vec![0], &vec![usd()], Some(20), Some(15));
    assert_eq!(
        store.history(0, &usd()),
        vec![obs(0, 5), obs(1, 10), obs(4, 25), obs(5, 30)]
    );
}

#[test]
fn store_lists_an_asset_once_for_each_source() {
    let store = sample();
    let mut sources = store.sources();
    sources.sort();
    assert_eq!(sources, vec![1, 2]);
    assert_eq!(store.assets(), vec![usd(), eur(), usd(), account()]);
    assert_eq!(store.assets_of(1), vec![usd(), eur()]);
    assert_eq!(store.assets_of(3), vec![]);
    assert_eq!(store.latest(1, &usd()), Some(obs(12, 200)));
    assert_eq!(store.last_prices(1, &usd(), 2), vec![obs(11, 150), obs(12, 200)]);
    assert_eq!(store.prices_in_range(2, &account(), 121, 180), vec![obs(41, 180)]);
}
