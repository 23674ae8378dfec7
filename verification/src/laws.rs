//! What holds of every history and every store: the laws that relate the
//! operations of the oracle to each other.

use vstd::prelude::*;
use crate::asset::AssetId;
use crate::history::{in_range, keeps, last_n, latest_of, retained, sorted};
use crate::price::PriceData;
use crate::store::{
    appended, history_of, populated, pruned, pruned_assets, pruned_history, pruned_source, selected,
};

verus! {

/// A range query returns exactly the observations of the history whose
/// timestamp lies within the bounds.
pub proof fn lemma_range_members(history: Seq<PriceData>, start: u64, end: u64)
    ensures
        forall|p: PriceData|
            #[trigger] in_range(history, start, end).contains(p) <==> history.contains(p) && start
                <= p.timestamp <= end,
        in_range(history, start, end).len() <= history.len(),
    decreases history.len(),
{
    let pred = |p: PriceData| start <= p.timestamp <= end;
    if history.len() == 0 {
        history.lemma_filter_len(pred);
    } else {
        let rest = history.drop_last();
        let last = history.last();
        lemma_range_members(rest, start, end);
        assert(rest.push(last) =~= history);
        rest.lemma_filter_push(last, pred);
        assert forall|p: PriceData| #[trigger]
            in_range(history, start, end).contains(p) <==> history.contains(p) && start
                <= p.timestamp <= end by {
            if in_range(history, start, end).contains(p) {
                let i = choose|i: int|
                    0 <= i < in_range(history, start, end).len() && in_range(
                        history,
                        start,
                        end,
                    )[i] == p;
                if i < in_range(rest, start, end).len() {
                    assert(in_range(rest, start, end)[i] == p);
                    assert(in_range(rest, start, end).contains(p));
                    let j = choose|j: int| 0 <= j < rest.len() && rest[j] == p;
                    assert(history[j] == p);
                } else {
                    assert(p == last);
                    assert(history[history.len() - 1] == p);
                }
            }
            if history.contains(p) && start <= p.timestamp <= end {
                let j = choose|j: int| 0 <= j < history.len() && history[j] == p;
                if j < rest.len() {
                    assert(rest[j] == p);
                    assert(rest.contains(p));
                    assert(in_range(rest, start, end).contains(p));
                    let i = choose|i: int|
                        0 <= i < in_range(rest, start, end).len() && in_range(
                            rest,
                            start,
                            end,
                        )[i] == p;
                    assert(in_range(history, start, end)[i] == p);
                } else {
                    assert(in_range(history, start, end)[in_range(rest, start, end).len() as int]
                        == p);
                }
            }
        }
    }
}

/// A range query with crossed bounds returns nothing.
pub proof fn lemma_range_of_crossed_bounds(history: Seq<PriceData>, start: u64, end: u64)
    requires
        end < start,
    ensures
        in_range(history, start, end) == Seq::<PriceData>::empty(),
{
    lemma_range_members(history, start, end);
    if in_range(history, start, end).len() > 0 {
        assert(in_range(history, start, end).contains(in_range(history, start, end)[0]));
    }
    assert(in_range(history, start, end) =~= Seq::<PriceData>::empty());
}

/// A range query on a pair that the store does not hold returns nothing.
pub proof fn lemma_range_of_absent_pair(
    store: Map<u32, Map<AssetId, Seq<PriceData>>>,
    source: u32,
    asset: AssetId,
    start: u64,
    end: u64,
)
    requires
        !(store.contains_key(source) && store[source].contains_key(asset)),
    ensures
        in_range(history_of(store, source, asset), start, end) == Seq::<PriceData>::empty(),
{
    lemma_range_members(history_of(store, source, asset), start, end);
    assert(in_range(history_of(store, source, asset), start, end) =~= Seq::<PriceData>::empty());
}

/// The last `n` observations are the `min(n, len)` final ones in their
/// order; the last zero observations are none.
pub proof fn lemma_last_n(history: Seq<PriceData>, n: nat)
    ensures
        last_n(history, n).len() == if n <= history.len() {
            n
        } else {
            history.len()
        },
        forall|i: int|
            0 <= i < last_n(history, n).len() ==> #[trigger] last_n(history, n)[i] == history[history.len()
                - last_n(history, n).len() + i],
        last_n(history, 0) == Seq::<PriceData>::empty(),
{
    assert(last_n(history, 0) =~= Seq::<PriceData>::empty());
}

/// The latest observation is the sole element of the last one observations,
/// and there is none where the history is empty.
pub proof fn lemma_latest_is_last_one(history: Seq<PriceData>)
    ensures
        history.len() > 0 ==> last_n(history, 1).len() == 1 && latest_of(history) == Some(
            last_n(history, 1)[0],
        ),
        history.len() == 0 ==> latest_of(history) is None && last_n(history, 1).len() == 0,
{
}

/// An append extends the history of its pair by the new observation and
/// leaves every other history as it was.
pub proof fn lemma_appended_history(
    store: Map<u32, Map<AssetId, Seq<PriceData>>>,
    source: u32,
    asset: AssetId,
    data: PriceData,
    other_source: u32,
    other_asset: AssetId,
)
    ensures
        history_of(appended(store, source, asset, data), other_source, other_asset) == if other_source
            == source && other_asset == asset {
            history_of(store, source, asset).push(data)
        } else {
            history_of(store, other_source, other_asset)
        },
{
}

/// An append to a populated store leaves a populated store.
pub proof fn lemma_appended_populated(
    store: Map<u32, Map<AssetId, Seq<PriceData>>>,
    source: u32,
    asset: AssetId,
    data: PriceData,
)
    requires
        populated(store),
    ensures
        populated(appended(store, source, asset, data)),
{
    let after = appended(store, source, asset, data);
    assert(after[source].contains_key(asset));
    assert forall|s: u32| #[trigger] after.contains_key(s) implies after[s] != Map::<
        AssetId,
        Seq<PriceData>,
    >::empty() by {
        if s != source {
            assert(store.contains_key(s));
        }
    }
}

/// The store after one append for each of `observations`, in their order, to
/// the history of `asset` under `source`.
pub open spec fn replayed(
    store: Map<u32, Map<AssetId, Seq<PriceData>>>,
    source: u32,
    asset: AssetId,
    observations: Seq<PriceData>,
) -> Map<u32, Map<AssetId, Seq<PriceData>>>
    decreases observations.len(),
{
    if observations.len() == 0 {
        store
    } else {
        appended(
            replayed(store, source, asset, observations.drop_last()),
            source,
            asset,
            observations.last(),
        )
    }
}

/// After a sequence of appends to one pair its history is what it was,
/// followed by the appended observations in the order of the appends, and
/// every other history is as it was.
pub proof fn lemma_replayed_history(
    store: Map<u32, Map<AssetId, Seq<PriceData>>>,
    source: u32,
    asset: AssetId,
    observations: Seq<PriceData>,
    other_source: u32,
    other_asset: AssetId,
)
    ensures
        history_of(replayed(store, source, asset, observations), other_source, other_asset)
            == if other_source == source && other_asset == asset {
            history_of(store, source, asset) + observations
        } else {
            history_of(store, other_source, other_asset)
        },
    decreases observations.len(),
{
    if observations.len() == 0 {
        assert(history_of(store, source, asset) + observations =~= history_of(store, source, asset));
    } else {
        let before = replayed(store, source, asset, observations.drop_last());
        lemma_replayed_history(
            store,
            source,
            asset,
            observations.drop_last(),
            other_source,
            other_asset,
        );
        lemma_appended_history(
            before,
            source,
            asset,
            observations.last(),
            other_source,
            other_asset,
        );
        assert((history_of(store, source, asset) + observations.drop_last()).push(
            observations.last(),
        ) =~= history_of(store, source, asset) + observations);
    }
}

/// Where the clock never runs backwards, a sequence of appends to a pair
/// that the store did not hold leaves a history that is sorted by timestamp
/// and has one observation for each append.
pub proof fn lemma_appends_sorted_and_counted(
    store: Map<u32, Map<AssetId, Seq<PriceData>>>,
    source: u32,
    asset: AssetId,
    observations: Seq<PriceData>,
)
    requires
        history_of(store, source, asset).len() == 0,
        sorted(observations),
    ensures
        history_of(replayed(store, source, asset, observations), source, asset) == observations,
        sorted(history_of(replayed(store, source, asset, observations), source, asset)),
        history_of(replayed(store, source, asset, observations), source, asset).len()
            == observations.len(),
{
    lemma_replayed_history(store, source, asset, observations, source, asset);
    assert(history_of(store, source, asset) + observations =~= observations);
}

/// An observation that is no earlier than the last one keeps a sorted
/// history sorted.
pub proof fn lemma_push_keeps_sorted(history: Seq<PriceData>, data: PriceData)
    requires
        sorted(history),
        history.len() > 0 ==> history.last().timestamp <= data.timestamp,
    ensures
        sorted(history.push(data)),
{
}

/// With a bound missing a prune keeps every observation of a history.
pub proof fn lemma_retained_without_bounds(
    history: Seq<PriceData>,
    start: Option<u64>,
    end: Option<u64>,
)
    requires
        start is None || end is None,
    ensures
        retained(history, start, end) == history,
    decreases history.len(),
{
    let pred = |p: PriceData| keeps(start, end, p.timestamp);
    if history.len() == 0 {
        history.lemma_filter_len(pred);
        assert(retained(history, start, end) =~= history);
    } else {
        lemma_retained_without_bounds(history.drop_last(), start, end);
        assert(history.drop_last().push(history.last()) =~= history);
        history.drop_last().lemma_filter_push(history.last(), pred);
    }
}

/// What a prune keeps of a history are observations of that history, each
/// of which the bounds keep, in the order in which they stood; so a sorted
/// history stays sorted.
pub proof fn lemma_retained_in_order(history: Seq<PriceData>, start: Option<u64>, end: Option<u64>)
    ensures
        retained(history, start, end).len() <= history.len(),
        forall|i: int|
            0 <= i < retained(history, start, end).len() ==> keeps(
                start,
                end,
                (#[trigger] retained(history, start, end)[i]).timestamp,
            ),
        forall|i: int|
            0 <= i < retained(history, start, end).len() ==> history.contains(
                #[trigger] retained(history, start, end)[i],
            ),
        forall|i: int|
            0 <= i < history.len() && keeps(start, end, history[i].timestamp) ==> retained(
                history,
                start,
                end,
            ).contains(#[trigger] history[i]),
        sorted(history) ==> sorted(retained(history, start, end)),
    decreases history.len(),
{
    let pred = |p: PriceData| keeps(start, end, p.timestamp);
    let kept = retained(history, start, end);
    if history.len() == 0 {
        history.lemma_filter_len(pred);
    } else {
        let rest = history.drop_last();
        let last = history.last();
        let kept_rest = retained(rest, start, end);
        lemma_retained_in_order(rest, start, end);
        assert(rest.push(last) =~= history);
        rest.lemma_filter_push(last, pred);
        assert forall|i: int| 0 <= i < kept.len() implies history.contains(#[trigger] kept[i]) by {
            if i < kept_rest.len() {
                assert(kept[i] == kept_rest[i]);
                assert(rest.contains(kept_rest[i]));
                let j = choose|j: int| 0 <= j < rest.len() && rest[j] == kept_rest[i];
                assert(history[j] == kept[i]);
            } else {
                assert(history[history.len() - 1] == kept[i]);
            }
        }
        assert forall|i: int|
            0 <= i < history.len() && keeps(start, end, history[i].timestamp) implies kept.contains(
            #[trigger] history[i],
        ) by {
            if i < rest.len() {
                assert(kept_rest.contains(rest[i]));
                let j = choose|j: int| 0 <= j < kept_rest.len() && kept_rest[j] == rest[i];
                assert(kept[j] == history[i]);
            } else {
                assert(kept[kept.len() - 1] == history[i]);
            }
        }
        if sorted(history) {
            assert(sorted(rest)) by {
                assert forall|i: int, j: int| 0 <= i <= j < rest.len() implies rest[i].timestamp
                    <= rest[j].timestamp by {
                    assert(history[i].timestamp <= history[j].timestamp);
                }
            }
            assert forall|i: int, j: int| 0 <= i <= j < kept.len() implies kept[i].timestamp
                <= kept[j].timestamp by {
                if j < kept_rest.len() {
                    assert(kept_rest[i].timestamp <= kept_rest[j].timestamp);
                } else if i < kept_rest.len() {
                    assert(rest.contains(kept_rest[i]));
                    let k = choose|k: int| 0 <= k < rest.len() && rest[k] == kept_rest[i];
                    assert(history[k].timestamp <= history[history.len() - 1].timestamp);
                }
            }
        }
    }
}

/// After a prune the history of a considered pair is what the bounds keep of
/// it, and the history of every other pair is as it was.
pub proof fn lemma_pruned_history(
    store: Map<u32, Map<AssetId, Seq<PriceData>>>,
    sources: Seq<u32>,
    assets: Seq<AssetId>,
    start: Option<u64>,
    end: Option<u64>,
    source: u32,
    asset: AssetId,
)
    requires
        populated(store),
    ensures
        history_of(pruned(store, sources, assets, start, end), source, asset) == pruned_history(
            history_of(store, source, asset),
            selected(sources, source) && selected(assets, asset),
            start,
            end,
        ),
{
    let after = pruned(store, sources, assets, start, end);
    let before = history_of(store, source, asset);
    let considered = selected(sources, source) && selected(assets, asset);
    lemma_retained_in_order(before, start, end);
    if store.contains_key(source) {
        let left = pruned_source(store[source], selected(sources, source), assets, start, end);
        if store[source].contains_key(asset) {
            let kept = pruned_history(before, considered, start, end);
            if kept.len() > 0 {
                assert(left.contains_key(asset));
            } else {
                assert(kept =~= Seq::<PriceData>::empty());
            }
        } else {
            assert(pruned_history(before, considered, start, end) =~= Seq::<PriceData>::empty());
        }
    } else {
        assert(pruned_history(before, considered, start, end) =~= Seq::<PriceData>::empty());
    }
}

/// A prune of a populated store leaves a populated store.
pub proof fn lemma_pruned_populated(
    store: Map<u32, Map<AssetId, Seq<PriceData>>>,
    sources: Seq<u32>,
    assets: Seq<AssetId>,
    start: Option<u64>,
    end: Option<u64>,
)
    requires
        populated(store),
    ensures
        populated(pruned(store, sources, assets, start, end)),
{
}

/// A prune with a bound missing changes nothing, whatever its filters.
pub proof fn lemma_prune_without_bounds(
    store: Map<u32, Map<AssetId, Seq<PriceData>>>,
    sources: Seq<u32>,
    assets: Seq<AssetId>,
    start: Option<u64>,
    end: Option<u64>,
)
    requires
        populated(store),
        start is None || end is None,
    ensures
        pruned(store, sources, assets, start, end) == store,
{
    let after = pruned(store, sources, assets, start, end);
    assert forall|s: u32| store.contains_key(s) implies #[trigger] pruned_source(
        store[s],
        selected(sources, s),
        assets,
        start,
        end,
    ) == store[s] by {
        assert forall|a: AssetId| store[s].contains_key(a) implies #[trigger] pruned_history(
            store[s][a],
            selected(assets, a),
            start,
            end,
        ) == store[s][a] by {
            lemma_retained_without_bounds(store[s][a], start, end);
        }
        assert(pruned_assets(store[s], assets, start, end) =~= store[s]);
    }
    assert(after =~= store);
}

/// A prune of one pair with both bounds leaves of that pair the observations
/// that the bounds keep, and every other pair as it was.
pub proof fn lemma_prune_one_pair(
    store: Map<u32, Map<AssetId, Seq<PriceData>>>,
    source: u32,
    asset: AssetId,
    start: u64,
    end: u64,
    other_source: u32,
    other_asset: AssetId,
)
    requires
        populated(store),
    ensures
        history_of(
            pruned(store, seq![source], seq![asset], Some(start), Some(end)),
            other_source,
            other_asset,
        ) == if other_source == source && other_asset == asset {
            retained(history_of(store, source, asset), Some(start), Some(end))
        } else {
            history_of(store, other_source, other_asset)
        },
{
    lemma_pruned_history(
        store,
        seq![source],
        seq![asset],
        Some(start),
        Some(end),
        other_source,
        other_asset,
    );
    assert(seq![source][0] == source);
    assert(seq![asset][0] == asset);
}

} // verus!
