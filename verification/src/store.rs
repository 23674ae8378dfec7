//! The price store: for each source, for each asset that the source quotes,
//! the history of its observations.

use vstd::prelude::*;
use crate::asset::{Asset, AssetId};
use crate::assoc::{
    assoc_map, lemma_assoc_at, lemma_assoc_dom, lemma_assoc_push, lemma_assoc_take_succ,
    lemma_assoc_update, lemma_push_fresh_key,
};
use crate::history::{
    in_range, last_n, latest_of, retained, select_last, select_range, select_retained,
};
use crate::price::PriceData;

verus! {

/// The history of `asset` under `source` in a store, empty where the store
/// has no such pair.
pub open spec fn history_of(
    store: Map<u32, Map<AssetId, Seq<PriceData>>>,
    source: u32,
    asset: AssetId,
) -> Seq<PriceData> {
    if store.contains_key(source) && store[source].contains_key(asset) {
        store[source][asset]
    } else {
        Seq::empty()
    }
}

/// A store holds no empty history and no source without assets.
pub open spec fn populated(store: Map<u32, Map<AssetId, Seq<PriceData>>>) -> bool {
    &&& forall|s: u32| #[trigger]
        store.contains_key(s) ==> store[s] != Map::<AssetId, Seq<PriceData>>::empty()
    &&& forall|s: u32, a: AssetId|
        store.contains_key(s) && #[trigger] store[s].contains_key(a) ==> store[s][a].len() > 0
}

/// The histories of one source after `data` is appended to that of `asset`,
/// which is created where the source did not quote the asset.
pub open spec fn recorded(
    assets: Map<AssetId, Seq<PriceData>>,
    asset: AssetId,
    data: PriceData,
) -> Map<AssetId, Seq<PriceData>> {
    let history = if assets.contains_key(asset) {
        assets[asset]
    } else {
        Seq::empty()
    };
    assets.insert(asset, history.push(data))
}

/// The store after `data` is appended to the history of `asset` under
/// `source`; the source and the pair are created where they were absent.
pub open spec fn appended(
    store: Map<u32, Map<AssetId, Seq<PriceData>>>,
    source: u32,
    asset: AssetId,
    data: PriceData,
) -> Map<u32, Map<AssetId, Seq<PriceData>>> {
    let assets = if store.contains_key(source) {
        store[source]
    } else {
        Map::empty()
    };
    store.insert(source, recorded(assets, asset, data))
}

/// Whether a prune with the filter `chosen` considers `key`: an empty filter
/// considers every key, another one the keys that it lists.
pub open spec fn selected<K>(chosen: Seq<K>, key: K) -> bool {
    chosen.len() == 0 || chosen.contains(key)
}

/// What a prune leaves of one history: what the bounds keep of it where the
/// pair is considered, all of it where it is not.
pub open spec fn pruned_history(
    history: Seq<PriceData>,
    considered: bool,
    start: Option<u64>,
    end: Option<u64>,
) -> Seq<PriceData> {
    if considered {
        retained(history, start, end)
    } else {
        history
    }
}

/// What a prune leaves of the histories of one considered source: each
/// history pruned, and the assets dropped whose history became empty.
pub open spec fn pruned_assets(
    assets: Map<AssetId, Seq<PriceData>>,
    chosen: Seq<AssetId>,
    start: Option<u64>,
    end: Option<u64>,
) -> Map<AssetId, Seq<PriceData>> {
    Map::new(
        |a: AssetId|
            assets.contains_key(a) && pruned_history(
                assets[a],
                selected(chosen, a),
                start,
                end,
            ).len() > 0,
        |a: AssetId| pruned_history(assets[a], selected(chosen, a), start, end),
    )
}

/// What a prune leaves of the histories of one source: pruned where the
/// source is considered, as they were where it is not.
pub open spec fn pruned_source(
    assets: Map<AssetId, Seq<PriceData>>,
    considered: bool,
    chosen: Seq<AssetId>,
    start: Option<u64>,
    end: Option<u64>,
) -> Map<AssetId, Seq<PriceData>> {
    if considered {
        pruned_assets(assets, chosen, start, end)
    } else {
        assets
    }
}

/// The store after a prune: the histories of each source pruned, and the
/// sources dropped that are left without assets.
pub open spec fn pruned(
    store: Map<u32, Map<AssetId, Seq<PriceData>>>,
    sources: Seq<u32>,
    assets: Seq<AssetId>,
    start: Option<u64>,
    end: Option<u64>,
) -> Map<u32, Map<AssetId, Seq<PriceData>>> {
    Map::new(
        |s: u32|
            store.contains_key(s) && pruned_source(
                store[s],
                selected(sources, s),
                assets,
                start,
                end,
            ) != Map::<AssetId, Seq<PriceData>>::empty(),
        |s: u32| pruned_source(store[s], selected(sources, s), assets, start, end),
    )
}

/// The sources of a layout in its order.
pub open spec fn layout_sources(layout: Seq<(u32, Seq<AssetId>)>) -> Seq<u32> {
    layout.map_values(|e: (u32, Seq<AssetId>)| e.0)
}

/// The assets of a layout in its order: those of its first source, then
/// those of its second, and so on. An asset that two sources quote stands
/// there twice.
pub open spec fn layout_assets(layout: Seq<(u32, Seq<AssetId>)>) -> Seq<AssetId> {
    layout.map_values(|e: (u32, Seq<AssetId>)| e.1).flatten()
}

/// `layout` lists the keys of `store` and nothing else: each source once,
/// and with each source each of its assets once.
pub open spec fn enumerates(
    layout: Seq<(u32, Seq<AssetId>)>,
    store: Map<u32, Map<AssetId, Seq<PriceData>>>,
) -> bool {
    &&& layout_sources(layout).no_duplicates()
    &&& forall|s: u32| #[trigger] store.contains_key(s) <==> layout_sources(layout).contains(s)
    &&& forall|i: int|
        0 <= i < layout.len() ==> (#[trigger] layout[i]).1.no_duplicates()
    &&& forall|i: int, a: AssetId|
        0 <= i < layout.len() ==> ((#[trigger] layout[i]).1.contains(a)
            <==> #[trigger] store[layout[i].0].contains_key(a))
}

/// The assets `items` by their identities.
pub open spec fn asset_ids(items: Seq<Asset>) -> Seq<AssetId> {
    items.map_values(|a: Asset| a@)
}

struct AssetPrices {
    asset: Asset,
    history: Vec<PriceData>,
}

struct SourcePrices {
    source: u32,
    assets: Vec<AssetPrices>,
}

/// The two-level keyed collection source -> asset -> price history.
pub struct PriceStore {
    entries: Vec<SourcePrices>,
}

spec fn asset_keys(entries: Seq<AssetPrices>) -> Seq<AssetId> {
    entries.map_values(|e: AssetPrices| e.asset@)
}

spec fn asset_vals(entries: Seq<AssetPrices>) -> Seq<Seq<PriceData>> {
    entries.map_values(|e: AssetPrices| e.history@)
}

spec fn assets_view(entries: Seq<AssetPrices>) -> Map<AssetId, Seq<PriceData>> {
    assoc_map(asset_keys(entries), asset_vals(entries))
}

spec fn assets_ok(entries: Seq<AssetPrices>) -> bool {
    &&& asset_keys(entries).no_duplicates()
    &&& forall|i: int| 0 <= i < entries.len() ==> (#[trigger] entries[i]).history@.len() > 0
}

spec fn assets_wf(entries: Seq<AssetPrices>) -> bool {
    &&& entries.len() > 0
    &&& assets_ok(entries)
}

spec fn source_keys(entries: Seq<SourcePrices>) -> Seq<u32> {
    entries.map_values(|e: SourcePrices| e.source)
}

spec fn source_vals(entries: Seq<SourcePrices>) -> Seq<Map<AssetId, Seq<PriceData>>> {
    entries.map_values(|e: SourcePrices| assets_view(e.assets@))
}

spec fn store_view(entries: Seq<SourcePrices>) -> Map<u32, Map<AssetId, Seq<PriceData>>> {
    assoc_map(source_keys(entries), source_vals(entries))
}

spec fn store_wf(entries: Seq<SourcePrices>) -> bool {
    &&& source_keys(entries).no_duplicates()
    &&& forall|i: int| 0 <= i < entries.len() ==> assets_wf((#[trigger] entries[i]).assets@)
}

spec fn layout_of(entries: Seq<SourcePrices>) -> Seq<(u32, Seq<AssetId>)> {
    entries.map_values(|e: SourcePrices| (e.source, asset_keys(e.assets@)))
}

/// Entry `i` of a well-formed asset list is what the list's map holds for
/// its key.
proof fn lemma_asset_entry(entries: Seq<AssetPrices>, i: int)
    requires
        asset_keys(entries).no_duplicates(),
        0 <= i < entries.len(),
    ensures
        assets_view(entries).contains_key(entries[i].asset@),
        assets_view(entries)[entries[i].asset@] == entries[i].history@,
{
    lemma_assoc_at(asset_keys(entries), asset_vals(entries), i);
}

/// A key that no entry has is not in the list's map.
proof fn lemma_asset_absent(entries: Seq<AssetPrices>, asset: AssetId)
    requires
        forall|i: int| 0 <= i < entries.len() ==> (#[trigger] entries[i]).asset@ != asset,
    ensures
        !assets_view(entries).contains_key(asset),
{
    lemma_assoc_dom(asset_keys(entries), asset_vals(entries));
    if asset_keys(entries).contains(asset) {
        let keys = asset_keys(entries);
        let i = choose|i: int| 0 <= i < keys.len() && keys[i] == asset;
        assert(entries[i].asset@ == asset);
    }
}

proof fn lemma_source_entry(entries: Seq<SourcePrices>, i: int)
    requires
        source_keys(entries).no_duplicates(),
        0 <= i < entries.len(),
    ensures
        store_view(entries).contains_key(entries[i].source),
        store_view(entries)[entries[i].source] == assets_view(entries[i].assets@),
{
    lemma_assoc_at(source_keys(entries), source_vals(entries), i);
}

proof fn lemma_source_absent(entries: Seq<SourcePrices>, source: u32)
    requires
        forall|i: int| 0 <= i < entries.len() ==> (#[trigger] entries[i]).source != source,
    ensures
        !store_view(entries).contains_key(source),
{
    lemma_assoc_dom(source_keys(entries), source_vals(entries));
    if source_keys(entries).contains(source) {
        let keys = source_keys(entries);
        let i = choose|i: int| 0 <= i < keys.len() && keys[i] == source;
        assert(entries[i].source == source);
    }
}

/// A well-formed list of entries stands for a populated store.
proof fn lemma_wf_populated(entries: Seq<SourcePrices>)
    requires
        store_wf(entries),
    ensures
        populated(store_view(entries)),
{
    let store = store_view(entries);
    lemma_assoc_dom(source_keys(entries), source_vals(entries));
    assert forall|s: u32| #[trigger] store.contains_key(s) implies store[s] != Map::<
        AssetId,
        Seq<PriceData>,
    >::empty() && (forall|a: AssetId| #[trigger]
        store[s].contains_key(a) ==> store[s][a].len() > 0) by {
        let i = choose|i: int| 0 <= i < source_keys(entries).len() && source_keys(entries)[i] == s;
        lemma_source_entry(entries, i);
        let assets = entries[i].assets@;
        lemma_asset_entry(assets, 0);
        lemma_assoc_dom(asset_keys(assets), asset_vals(assets));
        assert forall|a: AssetId| #[trigger] store[s].contains_key(a) implies store[s][a].len()
            > 0 by {
            let j = choose|j: int| 0 <= j < asset_keys(assets).len() && asset_keys(assets)[j] == a;
            lemma_asset_entry(assets, j);
        }
    }
}

/// The layout of a well-formed list of entries lists the keys of its store.
proof fn lemma_layout(entries: Seq<SourcePrices>)
    requires
        store_wf(entries),
    ensures
        enumerates(layout_of(entries), store_view(entries)),
        layout_sources(layout_of(entries)) == source_keys(entries),
{
    let layout = layout_of(entries);
    let store = store_view(entries);
    assert(layout_sources(layout) =~= source_keys(entries));
    lemma_assoc_dom(source_keys(entries), source_vals(entries));
    assert forall|i: int, a: AssetId| 0 <= i < layout.len() implies (
        (#[trigger] layout[i]).1.contains(a) <==> #[trigger] store[layout[i].0].contains_key(a)
    ) by {
        lemma_source_entry(entries, i);
        lemma_assoc_dom(asset_keys(entries[i].assets@), asset_vals(entries[i].assets@));
    }
}

/// The place of `asset` among `entries`, if it has one.
fn find_asset(entries: &Vec<AssetPrices>, asset: &Asset) -> (place: Option<usize>)
    ensures
        match place {
            Some(i) => i < entries.len() && entries[i as int].asset@ == asset@,
            None => forall|i: int|
                0 <= i < entries.len() ==> (#[trigger] entries[i]).asset@ != asset@,
        },
{
    let mut i: usize = 0;
    while i < entries.len()
        invariant
            i <= entries.len(),
            forall|k: int| 0 <= k < i ==> (#[trigger] entries[k]).asset@ != asset@,
        decreases entries.len() - i,
    {
        if entries[i].asset == *asset {
            return Some(i);
        }
        i += 1;
    }
    None
}

/// The place of `source` among `entries`, if it has one.
fn find_source(entries: &Vec<SourcePrices>, source: u32) -> (place: Option<usize>)
    ensures
        match place {
            Some(i) => i < entries.len() && entries[i as int].source == source,
            None => forall|i: int|
                0 <= i < entries.len() ==> (#[trigger] entries[i]).source != source,
        },
{
    let mut i: usize = 0;
    while i < entries.len()
        invariant
            i <= entries.len(),
            forall|k: int| 0 <= k < i ==> (#[trigger] entries[k]).source != source,
        decreases entries.len() - i,
    {
        if entries[i].source == source {
            return Some(i);
        }
        i += 1;
    }
    None
}

/// Appends `data` to the history of `asset` in `entries`, with a new entry
/// where the asset has none.
fn record(entries: &mut Vec<AssetPrices>, asset: Asset, data: PriceData)
    requires
        assets_ok(old(entries)@),
    ensures
        assets_wf(final(entries)@),
        assets_view(final(entries)@) == recorded(assets_view(old(entries)@), asset@, data),
{
    let ghost before = entries@;
    match find_asset(entries, &asset) {
        Some(j) => {
            entries[j].history.push(data);
            proof {
                lemma_asset_entry(before, j as int);
                assert(asset_keys(entries@) =~= asset_keys(before));
                assert(asset_vals(entries@) =~= asset_vals(before).update(
                    j as int,
                    before[j as int].history@.push(data),
                ));
                lemma_assoc_update(
                    asset_keys(before),
                    asset_vals(before),
                    j as int,
                    before[j as int].history@.push(data),
                );
            }
        },
        None => {
            let mut history: Vec<PriceData> = Vec::new();
            history.push(data);
            let ghost id = asset@;
            entries.push(AssetPrices { asset, history });
            proof {
                lemma_asset_absent(before, id);
                assert(asset_keys(entries@) =~= asset_keys(before).push(id));
                assert(asset_vals(entries@) =~= asset_vals(before).push(seq![data]));
                assert(Seq::<PriceData>::empty().push(data) =~= seq![data]);
                lemma_assoc_push(asset_keys(before), asset_vals(before), id, seq![data]);
                lemma_assoc_dom(asset_keys(before), asset_vals(before));
            }
        },
    }
}

/// Appends `data` to the history of `asset` under `source` in `entries`, with
/// new entries where the source or the pair has none.
fn record_under(entries: &mut Vec<SourcePrices>, source: u32, asset: Asset, data: PriceData)
    requires
        store_wf(old(entries)@),
    ensures
        store_wf(final(entries)@),
        store_view(final(entries)@) == appended(store_view(old(entries)@), source, asset@, data),
{
    let ghost before = entries@;
    match find_source(entries, source) {
        Some(i) => {
            record(&mut entries[i].assets, asset, data);
            proof {
                let fresh = assets_view(entries@[i as int].assets@);
                lemma_source_entry(before, i as int);
                assert(source_keys(entries@) =~= source_keys(before));
                assert(source_vals(entries@) =~= source_vals(before).update(i as int, fresh));
                lemma_assoc_update(source_keys(before), source_vals(before), i as int, fresh);
            }
        },
        None => {
            let mut assets: Vec<AssetPrices> = Vec::new();
            record(&mut assets, asset, data);
            let ghost fresh = assets_view(assets@);
            entries.push(SourcePrices { source, assets });
            proof {
                lemma_source_absent(before, source);
                assert(source_keys(entries@) =~= source_keys(before).push(source));
                assert(source_vals(entries@) =~= source_vals(before).push(fresh));
                lemma_assoc_push(source_keys(before), source_vals(before), source, fresh);
                lemma_assoc_dom(source_keys(before), source_vals(before));
            }
        },
    }
}

/// Whether `n` is one of `items`.
pub fn is_u32_in_vec(n: u32, items: &Vec<u32>) -> (found: bool)
    ensures
        found == items@.contains(n),
{
    let mut i: usize = 0;
    while i < items.len()
        invariant
            i <= items.len(),
            forall|k: int| 0 <= k < i ==> items[k] != n,
        decreases items.len() - i,
    {
        if items[i] == n {
            return true;
        }
        i += 1;
    }
    false
}

/// Whether `asset` is one of `items`.
pub fn is_asset_in_vec(asset: &Asset, items: &Vec<Asset>) -> (found: bool)
    ensures
        found == asset_ids(items@).contains(asset@),
{
    let mut i: usize = 0;
    while i < items.len()
        invariant
            i <= items.len(),
            forall|k: int| 0 <= k < i ==> asset_ids(items@)[k] != asset@,
        decreases items.len() - i,
    {
        if items[i] == *asset {
            assert(asset_ids(items@)[i as int] == asset@);
            return true;
        }
        i += 1;
    }
    false
}

/// A copy of a history.
fn copy_history(history: &Vec<PriceData>) -> (copy: Vec<PriceData>)
    ensures
        copy@ == history@,
{
    let mut copy: Vec<PriceData> = Vec::new();
    let mut i: usize = 0;
    while i < history.len()
        invariant
            i <= history.len(),
            copy@ == history@.take(i as int),
        decreases history.len() - i,
    {
        copy.push(history[i]);
        assert(history@.take(i + 1) =~= history@.take(i as int).push(history@[i as int]));
        i += 1;
    }
    assert(history@.take(i as int) =~= history@);
    copy
}

/// A copy of the entries of one source.
fn copy_assets(entries: &Vec<AssetPrices>) -> (copy: Vec<AssetPrices>)
    ensures
        asset_keys(copy@) == asset_keys(entries@),
        asset_vals(copy@) == asset_vals(entries@),
        assets_wf(entries@) ==> assets_wf(copy@),
{
    let mut copy: Vec<AssetPrices> = Vec::new();
    let mut i: usize = 0;
    while i < entries.len()
        invariant
            i <= entries.len(),
            asset_keys(copy@) =~= asset_keys(entries@).take(i as int),
            asset_vals(copy@) =~= asset_vals(entries@).take(i as int),
        decreases entries.len() - i,
    {
        let asset = entries[i].asset.clone();
        let history = copy_history(&entries[i].history);
        let ghost prior = copy@;
        copy.push(AssetPrices { asset, history });
        proof {
            assert(asset_keys(copy@) =~= asset_keys(prior).push(entries@[i as int].asset@));
            assert(asset_vals(copy@) =~= asset_vals(prior).push(entries@[i as int].history@));
            asset_keys(entries@).lemma_take_succ_push(i as int);
            asset_vals(entries@).lemma_take_succ_push(i as int);
        }
        i += 1;
    }
    assert(asset_keys(entries@).take(i as int) =~= asset_keys(entries@));
    assert(asset_vals(entries@).take(i as int) =~= asset_vals(entries@));
    assert(copy@.len() == asset_keys(copy@).len());
    assert forall|k: int| 0 <= k < copy@.len() implies (#[trigger] copy@[k]).history@
        == entries@[k].history@ by {
        assert(asset_vals(copy@)[k] == asset_vals(entries@)[k]);
    }
    copy
}

/// What a prune leaves of the entries of one considered source.
fn prune_assets(
    entries: &Vec<AssetPrices>,
    chosen: &Vec<Asset>,
    start: Option<u64>,
    end: Option<u64>,
) -> (kept: Vec<AssetPrices>)
    requires
        assets_ok(entries@),
    ensures
        assets_ok(kept@),
        assets_view(kept@) == pruned_assets(assets_view(entries@), asset_ids(chosen@), start, end),
{
    let ghost keys = asset_keys(entries@);
    let ghost vals = asset_vals(entries@);
    let ghost ids = asset_ids(chosen@);
    let mut kept: Vec<AssetPrices> = Vec::new();
    let mut i: usize = 0;
    assert(assets_view(kept@) =~= pruned_assets(
        assoc_map(keys.take(0), vals.take(0)),
        ids,
        start,
        end,
    ));
    while i < entries.len()
        invariant
            i <= entries.len(),
            keys == asset_keys(entries@),
            vals == asset_vals(entries@),
            ids == asset_ids(chosen@),
            assets_ok(entries@),
            assets_ok(kept@),
            assets_view(kept@) == pruned_assets(
                assoc_map(keys.take(i as int), vals.take(i as int)),
                ids,
                start,
                end,
            ),
        decreases entries.len() - i,
    {
        let entry = &entries[i];
        let considered = chosen.len() == 0 || is_asset_in_vec(&entry.asset, chosen);
        let history = if considered {
            select_retained(&entry.history, start, end)
        } else {
            copy_history(&entry.history)
        };
        proof {
            let seen = assoc_map(keys.take(i as int), vals.take(i as int));
            let id = entry.asset@;
            lemma_assoc_take_succ(keys, vals, i as int);
            lemma_assoc_dom(keys.take(i as int), vals.take(i as int));
            lemma_assoc_dom(asset_keys(kept@), asset_vals(kept@));
            assert(!seen.contains_key(id)) by {
                if keys.take(i as int).contains(id) {
                    let k = choose|k: int| 0 <= k < i && keys.take(i as int)[k] == id;
                    assert(keys[k] == keys[i as int]);
                }
            }
            assert(!assets_view(kept@).contains_key(id));
            assert(!asset_keys(kept@).contains(id));
            lemma_assoc_push(asset_keys(kept@), asset_vals(kept@), id, history@);
            assert(history@ == pruned_history(vals[i as int], selected(ids, id), start, end));
            if history@.len() > 0 {
                assert(pruned_assets(seen.insert(id, vals[i as int]), ids, start, end) =~= pruned_assets(
                    seen,
                    ids,
                    start,
                    end,
                ).insert(id, history@));
            } else {
                assert(pruned_assets(seen.insert(id, vals[i as int]), ids, start, end) =~= pruned_assets(
                    seen,
                    ids,
                    start,
                    end,
                ));
            }
        }
        if history.len() > 0 {
            let ghost prior = kept@;
            kept.push(AssetPrices { asset: entry.asset.clone(), history });
            proof {
                assert(asset_keys(kept@) =~= asset_keys(prior).push(entry.asset@));
                assert(asset_vals(kept@) =~= asset_vals(prior).push(history@));
                lemma_push_fresh_key(asset_keys(prior), entry.asset@);
            }
        }
        i += 1;
    }
    assert(keys.take(i as int) =~= keys);
    assert(vals.take(i as int) =~= vals);
    kept
}

/// What a prune leaves of the entries of a store.
fn prune_sources(
    entries: &Vec<SourcePrices>,
    sources: &Vec<u32>,
    assets: &Vec<Asset>,
    start: Option<u64>,
    end: Option<u64>,
) -> (kept: Vec<SourcePrices>)
    requires
        store_wf(entries@),
    ensures
        store_wf(kept@),
        store_view(kept@) == pruned(store_view(entries@), sources@, asset_ids(assets@), start, end),
{
    let ghost keys = source_keys(entries@);
    let ghost vals = source_vals(entries@);
    let ghost ids = asset_ids(assets@);
    let mut kept: Vec<SourcePrices> = Vec::new();
    let mut i: usize = 0;
    assert(store_view(kept@) =~= pruned(
        assoc_map(keys.take(0), vals.take(0)),
        sources@,
        ids,
        start,
        end,
    ));
    while i < entries.len()
        invariant
            i <= entries.len(),
            keys == source_keys(entries@),
            vals == source_vals(entries@),
            ids == asset_ids(assets@),
            store_wf(entries@),
            store_wf(kept@),
            store_view(kept@) == pruned(
                assoc_map(keys.take(i as int), vals.take(i as int)),
                sources@,
                ids,
                start,
                end,
            ),
        decreases entries.len() - i,
    {
        let entry = &entries[i];
        let considered = sources.len() == 0 || is_u32_in_vec(entry.source, sources);
        let left = if considered {
            prune_assets(&entry.assets, assets, start, end)
        } else {
            copy_assets(&entry.assets)
        };
        proof {
            let seen = assoc_map(keys.take(i as int), vals.take(i as int));
            let source = entry.source;
            let fresh = assets_view(left@);
            lemma_assoc_take_succ(keys, vals, i as int);
            lemma_assoc_dom(keys.take(i as int), vals.take(i as int));
            lemma_assoc_dom(source_keys(kept@), source_vals(kept@));
            assert(!seen.contains_key(source)) by {
                if keys.take(i as int).contains(source) {
                    let k = choose|k: int| 0 <= k < i && keys.take(i as int)[k] == source;
                    assert(keys[k] == keys[i as int]);
                }
            }
            assert(!store_view(kept@).contains_key(source));
            assert(!source_keys(kept@).contains(source));
            lemma_assoc_push(source_keys(kept@), source_vals(kept@), source, fresh);
            assert(fresh == pruned_source(
                vals[i as int],
                selected(sources@, source),
                ids,
                start,
                end,
            ));
            if left@.len() > 0 {
                lemma_asset_entry(left@, 0);
                assert(pruned(seen.insert(source, vals[i as int]), sources@, ids, start, end)
                    =~= pruned(seen, sources@, ids, start, end).insert(source, fresh));
            } else {
                assert(fresh =~= Map::<AssetId, Seq<PriceData>>::empty());
                assert(pruned(seen.insert(source, vals[i as int]), sources@, ids, start, end)
                    =~= pruned(seen, sources@, ids, start, end));
            }
        }
        if left.len() > 0 {
            let ghost prior = kept@;
            kept.push(SourcePrices { source: entry.source, assets: left });
            proof {
                assert(source_keys(kept@) =~= source_keys(prior).push(entry.source));
                assert(source_vals(kept@) =~= source_vals(prior).push(assets_view(left@)));
                lemma_push_fresh_key(source_keys(prior), entry.source);
            }
        }
        i += 1;
    }
    assert(keys.take(i as int) =~= keys);
    assert(vals.take(i as int) =~= vals);
    kept
}

impl View for PriceStore {
    type V = Map<u32, Map<AssetId, Seq<PriceData>>>;

    closed spec fn view(&self) -> Map<u32, Map<AssetId, Seq<PriceData>>> {
        store_view(self.entries@)
    }
}

impl PriceStore {
    #[verifier::type_invariant]
    spec fn well_formed(&self) -> bool {
        store_wf(self.entries@)
    }

    /// The order in which the store lists its keys: its sources, and with
    /// each source the assets that it quotes. The order is the store's own
    /// matter; what it lists is the store's keys, each once.
    pub closed spec fn layout(&self) -> Seq<(u32, Seq<AssetId>)> {
        layout_of(self.entries@)
    }

    /// A store without observations.
    pub fn new() -> (store: Self)
        ensures
            store@ == Map::<u32, Map<AssetId, Seq<PriceData>>>::empty(),
            populated(store@),
    {
        PriceStore { entries: Vec::new() }
    }

    /// Every store is populated: it holds no empty history and no source
    /// without assets. The call does nothing; it hands the fact to a caller
    /// whose proof needs it.
    pub fn recall_populated(&self)
        ensures
            populated(self@),
    {
        proof {
            use_type_invariant(self);
            lemma_wf_populated(self.entries@);
        }
    }

    /// Appends `data` to the history of `asset` under `source`, creating the
    /// source and the pair where they are absent. Nothing else changes.
    pub fn append(&mut self, source: u32, asset: Asset, data: PriceData)
        ensures
            final(self)@ == appended(old(self)@, source, asset@, data),
            populated(final(self)@),
    {
        proof {
            use_type_invariant(&*self);
        }
        let mut entries: Vec<SourcePrices> = Vec::new();
        core::mem::swap(&mut self.entries, &mut entries);
        record_under(&mut entries, source, asset, data);
        proof {
            lemma_wf_populated(entries@);
        }
        self.entries = entries;
    }

    /// Removes observations. A source is considered where `sources` is empty
    /// or lists it, and an asset of a considered source where `assets` is
    /// empty or lists it. Of a considered pair the observations stay that
    /// the bounds keep; a pair left without observations and a source left
    /// without pairs are dropped. Every other pair stays as it was.
    pub fn prune(
        &mut self,
        sources: &Vec<u32>,
        assets: &Vec<Asset>,
        start: Option<u64>,
        end: Option<u64>,
    )
        ensures
            final(self)@ == pruned(old(self)@, sources@, asset_ids(assets@), start, end),
            populated(final(self)@),
    {
        proof {
            use_type_invariant(&*self);
        }
        let kept = prune_sources(&self.entries, sources, assets, start, end);
        proof {
            lemma_wf_populated(kept@);
        }
        self.entries = kept;
    }

    /// The sources that quote at least one asset, each once.
    pub fn sources(&self) -> (found: Vec<u32>)
        ensures
            found@ == layout_sources(self.layout()),
            enumerates(self.layout(), self@),
            populated(self@),
    {
        proof {
            use_type_invariant(self);
            lemma_layout(self.entries@);
            lemma_wf_populated(self.entries@);
        }
        let mut found: Vec<u32> = Vec::new();
        let mut i: usize = 0;
        while i < self.entries.len()
            invariant
                i <= self.entries.len(),
                found@ == source_keys(self.entries@).take(i as int),
            decreases self.entries.len() - i,
        {
            found.push(self.entries[i].source);
            proof {
                source_keys(self.entries@).lemma_take_succ_push(i as int);
            }
            i += 1;
        }
        assert(source_keys(self.entries@).take(i as int) =~= source_keys(self.entries@));
        found
    }

    /// The assets that the sources quote, source by source: an asset that two
    /// sources quote is listed twice.
    pub fn assets(&self) -> (found: Vec<Asset>)
        ensures
            asset_ids(found@) == layout_assets(self.layout()),
            enumerates(self.layout(), self@),
            populated(self@),
    {
        proof {
            use_type_invariant(self);
            lemma_layout(self.entries@);
            lemma_wf_populated(self.entries@);
        }
        let ghost lists = self.layout().map_values(|e: (u32, Seq<AssetId>)| e.1);
        let mut found: Vec<Asset> = Vec::new();
        let mut i: usize = 0;
        assert(lists.take(0).flatten() =~= Seq::<AssetId>::empty());
        assert(asset_ids(found@) =~= Seq::<AssetId>::empty());
        while i < self.entries.len()
            invariant
                i <= self.entries.len(),
                lists == self.layout().map_values(|e: (u32, Seq<AssetId>)| e.1),
                lists.len() == self.entries.len(),
                asset_ids(found@) == lists.take(i as int).flatten(),
            decreases self.entries.len() - i,
        {
            let assets = &self.entries[i].assets;
            let ghost before = asset_ids(found@);
            let mut j: usize = 0;
            assert(asset_keys(assets@).take(0) =~= Seq::<AssetId>::empty());
            while j < assets.len()
                invariant
                    j <= assets.len(),
                    asset_ids(found@) == before + asset_keys(assets@).take(j as int),
                decreases assets.len() - j,
            {
                let ghost prior = found@;
                found.push(assets[j].asset.clone());
                proof {
                    assert(asset_ids(found@) =~= asset_ids(prior).push(assets@[j as int].asset@));
                    asset_keys(assets@).lemma_take_succ_push(j as int);
                    assert(asset_ids(found@) =~= before + asset_keys(assets@).take(j + 1));
                }
                j += 1;
            }
            proof {
                assert(asset_keys(assets@).take(j as int) =~= asset_keys(assets@));
                assert(lists[i as int] == asset_keys(assets@));
                lists.lemma_take_succ_push(i as int);
                lists.take(i as int).lemma_flatten_push(lists[i as int]);
            }
            i += 1;
        }
        assert(lists.take(i as int) =~= lists);
        found
    }

    /// The assets that `source` quotes, each once; none where the store does
    /// not hold the source.
    pub fn assets_of(&self, source: u32) -> (found: Vec<Asset>)
        ensures
            asset_ids(found@).no_duplicates(),
            forall|a: AssetId|
                asset_ids(found@).contains(a) <==> self@.contains_key(source)
                    && #[trigger] self@[source].contains_key(a),
            forall|i: int|
                0 <= i < self.layout().len() && (#[trigger] self.layout()[i]).0 == source
                    ==> asset_ids(found@) == self.layout()[i].1,
    {
        proof {
            use_type_invariant(self);
            lemma_layout(self.entries@);
        }
        match find_source(&self.entries, source) {
            Some(i) => {
                let assets = &self.entries[i].assets;
                let mut found: Vec<Asset> = Vec::new();
                let mut j: usize = 0;
                assert(asset_ids(found@) =~= asset_keys(assets@).take(0));
                while j < assets.len()
                    invariant
                        j <= assets.len(),
                        asset_ids(found@) == asset_keys(assets@).take(j as int),
                    decreases assets.len() - j,
                {
                    let ghost prior = found@;
                    found.push(assets[j].asset.clone());
                    proof {
                        assert(asset_ids(found@) =~= asset_ids(prior).push(assets@[j as int].asset@));
                        asset_keys(assets@).lemma_take_succ_push(j as int);
                    }
                    j += 1;
                }
                proof {
                    assert(asset_keys(assets@).take(j as int) =~= asset_keys(assets@));
                    lemma_source_entry(self.entries@, i as int);
                    lemma_assoc_dom(asset_keys(assets@), asset_vals(assets@));
                    assert(self.layout()[i as int].0 == source);
                    assert forall|k: int|
                        0 <= k < self.layout().len() && (#[trigger] self.layout()[k]).0
                            == source implies k == i by {
                        assert(source_keys(self.entries@)[k] == source_keys(self.entries@)[i as int]);
                    }
                }
                found
            },
            None => {
                proof {
                    lemma_source_absent(self.entries@, source);
                }
                let found: Vec<Asset> = Vec::new();
                assert(asset_ids(found@) =~= Seq::<AssetId>::empty());
                found
            },
        }
    }

    /// The history of `asset` under `source`, if the store has that pair.
    fn lookup(&self, source: u32, asset: &Asset) -> (found: Option<&Vec<PriceData>>)
        ensures
            populated(self@),
            match found {
                Some(history) => self@.contains_key(source) && self@[source].contains_key(asset@)
                    && history@ == self@[source][asset@],
                None => !(self@.contains_key(source) && self@[source].contains_key(asset@)),
            },
    {
        proof {
            use_type_invariant(self);
            lemma_wf_populated(self.entries@);
        }
        match find_source(&self.entries, source) {
            Some(i) => {
                let assets = &self.entries[i].assets;
                proof {
                    lemma_source_entry(self.entries@, i as int);
                }
                match find_asset(assets, asset) {
                    Some(j) => {
                        proof {
                            lemma_asset_entry(assets@, j as int);
                        }
                        Some(&assets[j].history)
                    },
                    None => {
                        proof {
                            lemma_asset_absent(assets@, asset@);
                        }
                        None
                    },
                }
            },
            None => {
                proof {
                    lemma_source_absent(self.entries@, source);
                }
                None
            },
        }
    }

    /// The observations of `asset` under `source` with
    /// `start <= timestamp <= end`, oldest first; none where the store has no
    /// such pair.
    pub fn prices_in_range(&self, source: u32, asset: &Asset, start: u64, end: u64) -> (found: Vec<
        PriceData,
    >)
        ensures
            found@ == in_range(history_of(self@, source, asset@), start, end),
    {
        match self.lookup(source, asset) {
            Some(history) => select_range(history, start, end),
            None => Vec::new(),
        }
    }

    /// The whole history of `asset` under `source`, oldest first; empty where
    /// the store has no such pair.
    pub fn history(&self, source: u32, asset: &Asset) -> (found: Vec<PriceData>)
        ensures
            found@ == history_of(self@, source, asset@),
    {
        match self.lookup(source, asset) {
            Some(history) => copy_history(history),
            None => Vec::new(),
        }
    }

    /// The most recent observation of `asset` under `source`, if there is
    /// one: the sole element of its last one observations.
    pub fn latest(&self, source: u32, asset: &Asset) -> (found: Option<PriceData>)
        ensures
            found == latest_of(history_of(self@, source, asset@)),
    {
        let last = self.last_prices(source, asset, 1);
        if last.len() > 0 {
            Some(last[0])
        } else {
            None
        }
    }

    /// The last `records` observations of `asset` under `source`, oldest
    /// first; the whole history where it holds fewer.
    pub fn last_prices(&self, source: u32, asset: &Asset, records: u32) -> (found: Vec<PriceData>)
        ensures
            found@ == last_n(history_of(self@, source, asset@), records as nat),
    {
        match self.lookup(source, asset) {
            Some(history) => select_last(history, records),
            None => Vec::new(),
        }
    }
}

} // verus!
