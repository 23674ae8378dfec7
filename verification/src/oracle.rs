//! The oracle: a configuration that is set by `initialize`, and a price store
//! that only the administrator may change.

use vstd::prelude::*;
use crate::asset::{Asset, AssetId};
use crate::history::{in_range, last_n, latest_of, sorted};
use crate::laws::{
    lemma_last_n, lemma_latest_is_last_one, lemma_pruned_history, lemma_range_of_absent_pair,
    lemma_range_of_crossed_bounds, lemma_retained_in_order,
};
use crate::ledger::ledger_timestamp;
use crate::price::PriceData;
use crate::store::{
    appended, asset_ids, enumerates, history_of, layout_assets, layout_sources, populated, pruned,
    pruned_history, selected, PriceStore,
};

verus! {

/// The source that the queries without a source argument read.
pub const DEFAULT_SOURCE: u32 = 0;

/// Why an operation of the oracle failed.
#[derive(Clone, Copy, Debug, PartialEq, Eq, Structural)]
pub enum OracleError {
    /// The configuration was read before `initialize` set it.
    Uninitialized,
    /// The caller is not the administrator.
    Unauthorized,
}

/// The configuration as contracts speak of it.
pub ghost struct ConfigView {
    pub base: AssetId,
    pub decimals: u32,
    pub resolution: u32,
    pub admin: Seq<char>,
}

/// The oracle as contracts speak of it.
pub ghost struct OracleView {
    pub config: Option<ConfigView>,
    pub prices: Map<u32, Map<AssetId, Seq<PriceData>>>,
}

/// The configuration of an oracle.
pub struct Config {
    /// The asset in which all prices are expressed.
    pub base: Asset,
    /// The number of decimals of every price.
    pub decimals: u32,
    /// The nominal time between two updates, in seconds. Not enforced.
    pub resolution: u32,
    /// The principal that may append and prune, by its address in text form.
    pub admin: String,
}

impl View for Config {
    type V = ConfigView;

    open spec fn view(&self) -> ConfigView {
        ConfigView {
            base: self.base@,
            decimals: self.decimals,
            resolution: self.resolution,
            admin: self.admin@,
        }
    }
}

/// A price oracle: its configuration, absent until `initialize`, and its
/// price store.
///
/// The operations that change the oracle take a `caller`: the principal whose
/// authorization the host has confirmed for the invocation, by its address in
/// text form. They go through for the administrator on record and fail with
/// `Unauthorized` for anyone else, leaving the oracle as it was.
pub struct Oracle {
    config: Option<Config>,
    prices: PriceStore,
}

impl View for Oracle {
    type V = OracleView;

    closed spec fn view(&self) -> OracleView {
        OracleView {
            config: match self.config {
                Some(config) => Some(config@),
                None => None,
            },
            prices: self.prices@,
        }
    }
}

/// Whether `caller` may change the prices of an oracle in state `oracle`,
/// and the error that it gets where it may not.
pub open spec fn admission(oracle: OracleView, caller: Seq<char>) -> Result<(), OracleError> {
    match oracle.config {
        None => Err(OracleError::Uninitialized),
        Some(config) => if config.admin == caller {
            Ok(())
        } else {
            Err(OracleError::Unauthorized)
        },
    }
}

impl Oracle {
    /// An oracle that was never initialized: no configuration, no prices.
    pub fn new() -> (oracle: Self)
        ensures
            oracle@.config is None,
            oracle@.prices == Map::<u32, Map<AssetId, Seq<PriceData>>>::empty(),
            populated(oracle@.prices),
    {
        Oracle { config: None, prices: PriceStore::new() }
    }

    /// An oracle with the given configuration and prices.
    pub fn restore(config: Option<Config>, prices: PriceStore) -> (oracle: Self)
        ensures
            oracle@.prices == prices@,
            match config {
                Some(c) => oracle@.config == Some(c@),
                None => oracle@.config is None,
            },
    {
        Oracle { config, prices }
    }

    /// The price store of the oracle.
    pub fn store(&self) -> (prices: &PriceStore)
        ensures
            prices@ == self@.prices,
    {
        &self.prices
    }

    /// The price store of every oracle is populated: it holds no empty
    /// history and no source without assets. The call does nothing; it hands
    /// the fact to a caller whose proof needs it.
    pub fn recall_populated(&self)
        ensures
            populated(self@.prices),
    {
        self.prices.recall_populated();
    }

    /// Sets the configuration and empties the price store. Where an
    /// administrator is on record, only that administrator may do so, and for
    /// anyone else nothing changes; where none is, any caller may.
    pub fn initialize(
        &mut self,
        caller: &String,
        admin: String,
        base: Asset,
        decimals: u32,
        resolution: u32,
    ) -> (done: Result<(), OracleError>)
        ensures
            match old(self)@.config {
                Some(config) if config.admin != caller@ => {
                    &&& done == Err::<(), OracleError>(OracleError::Unauthorized)
                    &&& final(self)@ == old(self)@
                },
                _ => {
                    &&& done is Ok
                    &&& final(self)@.config == Some(
                        ConfigView { base: base@, decimals, resolution, admin: admin@ },
                    )
                    &&& final(self)@.prices == Map::<u32, Map<AssetId, Seq<PriceData>>>::empty()
                },
            },
            populated(final(self)@.prices),
    {
        self.prices.recall_populated();
        let allowed = match &self.config {
            Some(config) => config.admin == *caller,
            None => true,
        };
        if !allowed {
            return Err(OracleError::Unauthorized);
        }
        self.config = Some(Config { base, decimals, resolution, admin });
        self.prices = PriceStore::new();
        Ok(())
    }

    /// The asset in which the prices are expressed.
    pub fn base(&self) -> (found: Result<Asset, OracleError>)
        ensures
            match self@.config {
                Some(config) => found is Ok && found->Ok_0@ == config.base,
                None => found == Err::<Asset, OracleError>(OracleError::Uninitialized),
            },
    {
        match &self.config {
            Some(config) => Ok(config.base.clone()),
            None => Err(OracleError::Uninitialized),
        }
    }

    /// The administrator.
    pub fn admin(&self) -> (found: Result<String, OracleError>)
        ensures
            match self@.config {
                Some(config) => found is Ok && found->Ok_0@ == config.admin,
                None => found == Err::<String, OracleError>(OracleError::Uninitialized),
            },
    {
        match &self.config {
            Some(config) => Ok(config.admin.clone()),
            None => Err(OracleError::Uninitialized),
        }
    }

    /// The number of decimals of every price.
    pub fn decimals(&self) -> (found: Result<u32, OracleError>)
        ensures
            match self@.config {
                Some(config) => found == Ok::<u32, OracleError>(config.decimals),
                None => found == Err::<u32, OracleError>(OracleError::Uninitialized),
            },
    {
        match &self.config {
            Some(config) => Ok(config.decimals),
            None => Err(OracleError::Uninitialized),
        }
    }

    /// The nominal time between two updates, in seconds.
    pub fn resolution(&self) -> (found: Result<u32, OracleError>)
        ensures
            match self@.config {
                Some(config) => found == Ok::<u32, OracleError>(config.resolution),
                None => found == Err::<u32, OracleError>(OracleError::Uninitialized),
            },
    {
        match &self.config {
            Some(config) => Ok(config.resolution),
            None => Err(OracleError::Uninitialized),
        }
    }

    /// The sources that quote at least one asset, each once, in the store's
    /// order.
    pub fn sources(&self) -> (found: Vec<u32>)
        ensures
            found@ == layout_sources(self.store_layout()),
            enumerates(self.store_layout(), self@.prices),
            populated(self@.prices),
    {
        self.prices.sources()
    }

    /// The assets that the sources quote, source by source in the store's
    /// order: an asset that two sources quote is listed twice.
    pub fn assets(&self) -> (found: Vec<Asset>)
        ensures
            asset_ids(found@) == layout_assets(self.store_layout()),
            enumerates(self.store_layout(), self@.prices),
            populated(self@.prices),
    {
        self.prices.assets()
    }

    /// The order in which the price store lists its keys.
    pub closed spec fn store_layout(&self) -> Seq<(u32, Seq<AssetId>)> {
        self.prices.layout()
    }

    /// The observations of `asset` under the default source with
    /// `start <= timestamp <= end`, oldest first.
    pub fn prices(&self, asset: &Asset, start_timestamp: u64, end_timestamp: u64) -> (found: Vec<
        PriceData,
    >)
        ensures
            found@ == in_range(
                history_of(self@.prices, DEFAULT_SOURCE, asset@),
                start_timestamp,
                end_timestamp,
            ),
    {
        self.prices_by_source(DEFAULT_SOURCE, asset, start_timestamp, end_timestamp)
    }

    /// The observations of `asset` under `source` with
    /// `start <= timestamp <= end`, oldest first. There are none where the
    /// bounds are crossed or the oracle has no such pair.
    pub fn prices_by_source(
        &self,
        source: u32,
        asset: &Asset,
        start_timestamp: u64,
        end_timestamp: u64,
    ) -> (found: Vec<PriceData>)
        ensures
            found@ == in_range(
                history_of(self@.prices, source, asset@),
                start_timestamp,
                end_timestamp,
            ),
            end_timestamp < start_timestamp ==> found@.len() == 0,
            !(self@.prices.contains_key(source) && self@.prices[source].contains_key(asset@))
                ==> found@.len() == 0,
    {
        proof {
            let history = history_of(self@.prices, source, asset@);
            if end_timestamp < start_timestamp {
                lemma_range_of_crossed_bounds(history, start_timestamp, end_timestamp);
            }
            if !(self@.prices.contains_key(source) && self@.prices[source].contains_key(asset@)) {
                lemma_range_of_absent_pair(
                    self@.prices,
                    source,
                    asset@,
                    start_timestamp,
                    end_timestamp,
                );
            }
        }
        self.prices.prices_in_range(source, asset, start_timestamp, end_timestamp)
    }

    /// The last `records` observations of `asset` under the default source,
    /// oldest first.
    pub fn lastprices(&self, asset: &Asset, records: u32) -> (found: Vec<PriceData>)
        ensures
            found@ == last_n(history_of(self@.prices, DEFAULT_SOURCE, asset@), records as nat),
    {
        self.lastprices_by_source(DEFAULT_SOURCE, asset, records)
    }

    /// The last `records` observations of `asset` under `source`, oldest
    /// first; the whole history where it holds fewer.
    pub fn lastprices_by_source(&self, source: u32, asset: &Asset, records: u32) -> (found: Vec<
        PriceData,
    >)
        ensures
            found@ == last_n(history_of(self@.prices, source, asset@), records as nat),
            found@.len() == if records <= history_of(self@.prices, source, asset@).len() {
                records as nat
            } else {
                history_of(self@.prices, source, asset@).len()
            },
            records == 0 ==> found@.len() == 0,
    {
        proof {
            lemma_last_n(history_of(self@.prices, source, asset@), records as nat);
        }
        self.prices.last_prices(source, asset, records)
    }

    /// The most recent observation of `asset` under the default source.
    pub fn lastprice(&self, asset: &Asset) -> (found: Option<PriceData>)
        ensures
            found == latest_of(history_of(self@.prices, DEFAULT_SOURCE, asset@)),
    {
        self.lastprice_by_source(DEFAULT_SOURCE, asset)
    }

    /// The most recent observation of `asset` under `source`, if there is
    /// one.
    pub fn lastprice_by_source(&self, source: u32, asset: &Asset) -> (found: Option<PriceData>)
        ensures
            found == latest_of(history_of(self@.prices, source, asset@)),
            match found {
                Some(data) => data == last_n(history_of(self@.prices, source, asset@), 1)[0],
                None => history_of(self@.prices, source, asset@).len() == 0,
            },
    {
        proof {
            lemma_latest_is_last_one(history_of(self@.prices, source, asset@));
        }
        self.prices.latest(source, asset)
    }

    /// Appends the observation of `price` at `timestamp` to the history of
    /// `asset` under `source`, for the administrator. For anyone else, and
    /// before `initialize`, nothing changes. The timestamp is not compared
    /// with those already stored.
    pub fn add_price_at(
        &mut self,
        caller: &String,
        source: u32,
        asset: Asset,
        price: i128,
        timestamp: u64,
    ) -> (done: Result<(), OracleError>)
        ensures
            done == admission(old(self)@, caller@),
            final(self)@.config == old(self)@.config,
            final(self)@.prices == match done {
                Ok(_) => appended(
                    old(self)@.prices,
                    source,
                    asset@,
                    PriceData { price, timestamp },
                ),
                Err(_) => old(self)@.prices,
            },
            done is Ok ==> history_of(final(self)@.prices, source, asset@) == history_of(
                old(self)@.prices,
                source,
                asset@,
            ).push(PriceData { price, timestamp }),
            done is Ok ==> forall|s: u32, a: AssetId|
                s != source || a != asset@ ==> #[trigger] history_of(final(self)@.prices, s, a)
                    == history_of(old(self)@.prices, s, a),
            done is Ok && sorted(history_of(old(self)@.prices, source, asset@)) && (history_of(
                old(self)@.prices,
                source,
                asset@,
            ).len() > 0 ==> history_of(old(self)@.prices, source, asset@).last().timestamp
                <= timestamp) ==> sorted(history_of(final(self)@.prices, source, asset@)),
            populated(final(self)@.prices),
    {
        self.prices.recall_populated();
        match self.check_caller(caller) {
            Ok(()) => {
                self.prices.append(source, asset, PriceData::new(price, timestamp));
                Ok(())
            },
            Err(error) => Err(error),
        }
    }

    /// Appends the observation of `price` at the ledger's current time to the
    /// history of `asset` under `source`, for the administrator. For anyone
    /// else, and before `initialize`, nothing changes and the clock is not
    /// read.
    pub fn add_price(
        &mut self,
        env: &soroban_sdk::Env,
        caller: &String,
        source: u32,
        asset: Asset,
        price: i128,
    ) -> (done: Result<(), OracleError>)
        ensures
            done == admission(old(self)@, caller@),
            final(self)@.config == old(self)@.config,
            done is Err ==> final(self)@.prices == old(self)@.prices,
            done is Ok ==> exists|timestamp: u64|
                final(self)@.prices == #[trigger] appended(
                    old(self)@.prices,
                    source,
                    asset@,
                    PriceData { price, timestamp },
                ),
            done is Ok ==> history_of(final(self)@.prices, source, asset@).len() == history_of(
                old(self)@.prices,
                source,
                asset@,
            ).len() + 1,
            populated(final(self)@.prices),
    {
        self.prices.recall_populated();
        match self.check_caller(caller) {
            Ok(()) => {
                let timestamp = ledger_timestamp(env);
                self.add_price_at(caller, source, asset, price, timestamp)
            },
            Err(error) => Err(error),
        }
    }

    /// Removes observations, for the administrator; for anyone else, and
    /// before `initialize`, nothing changes. A source is considered where
    /// `sources` is empty or lists it, and an asset of a considered source
    /// where `assets` is empty or lists it. Of a considered pair the
    /// observations stay that the bounds keep; a pair left without
    /// observations and a source left without pairs are dropped. Every other
    /// pair stays as it was.
    pub fn remove_prices(
        &mut self,
        caller: &String,
        sources: &Vec<u32>,
        assets: &Vec<Asset>,
        start_timestamp: Option<u64>,
        end_timestamp: Option<u64>,
    ) -> (done: Result<(), OracleError>)
        ensures
            done == admission(old(self)@, caller@),
            final(self)@.config == old(self)@.config,
            final(self)@.prices == match done {
                Ok(_) => pruned(
                    old(self)@.prices,
                    sources@,
                    asset_ids(assets@),
                    start_timestamp,
                    end_timestamp,
                ),
                Err(_) => old(self)@.prices,
            },
            done is Ok ==> forall|s: u32, a: AssetId| #[trigger]
                history_of(final(self)@.prices, s, a) == pruned_history(
                    history_of(old(self)@.prices, s, a),
                    selected(sources@, s) && selected(asset_ids(assets@), a),
                    start_timestamp,
                    end_timestamp,
                ),
            forall|s: u32, a: AssetId|
                sorted(history_of(old(self)@.prices, s, a)) ==> sorted(
                    #[trigger] history_of(final(self)@.prices, s, a),
                ),
            populated(final(self)@.prices),
    {
        self.prices.recall_populated();
        match self.check_caller(caller) {
            Ok(()) => {
                proof {
                    assert forall|s: u32, a: AssetId| #[trigger]
                        history_of(
                            pruned(
                                self@.prices,
                                sources@,
                                asset_ids(assets@),
                                start_timestamp,
                                end_timestamp,
                            ),
                            s,
                            a,
                        ) == pruned_history(
                            history_of(self@.prices, s, a),
                            selected(sources@, s) && selected(asset_ids(assets@), a),
                            start_timestamp,
                            end_timestamp,
                        ) by {
                        lemma_pruned_history(
                            self@.prices,
                            sources@,
                            asset_ids(assets@),
                            start_timestamp,
                            end_timestamp,
                            s,
                            a,
                        );
                    }
                    assert forall|s: u32, a: AssetId|
                        sorted(history_of(self@.prices, s, a)) implies sorted(
                        #[trigger] history_of(
                            pruned(
                                self@.prices,
                                sources@,
                                asset_ids(assets@),
                                start_timestamp,
                                end_timestamp,
                            ),
                            s,
                            a,
                        ),
                    ) by {
                        lemma_pruned_history(
                            self@.prices,
                            sources@,
                            asset_ids(assets@),
                            start_timestamp,
                            end_timestamp,
                            s,
                            a,
                        );
                        lemma_retained_in_order(
                            history_of(self@.prices, s, a),
                            start_timestamp,
                            end_timestamp,
                        );
                    }
                }
                self.prices.prune(sources, assets, start_timestamp, end_timestamp);
                Ok(())
            },
            Err(error) => Err(error),
        }
    }

    /// Whether `caller` may change the prices.
    fn check_caller(&self, caller: &String) -> (done: Result<(), OracleError>)
        ensures
            done == admission(self@, caller@),
    {
        match &self.config {
            None => Err(OracleError::Uninitialized),
            Some(config) => if config.admin == *caller {
                Ok(())
            } else {
                Err(OracleError::Unauthorized)
            },
        }
    }
}

} // verus!
