//! The data feeds that the oracle canister serves.
use vstd::prelude::*;

use crate::types::errors::PythiaError;

verus! {

/// One value of a data feed.
#[allow(inconsistent_fields)]
pub enum AssetData {
    DefaultPriceFeed { symbol: String, rate: u64, decimals: u64, timestamp: u64 },
    CustomPriceFeed { symbol: String, rate: u64, decimals: Option<u64>, timestamp: u64 },
    CustomNumber { id: String, value: u64, decimals: u64 },
    CustomString { id: String, value: String },
}

impl Default for AssetData {
    /// An empty default price feed.
    fn default() -> (res: Self)
        ensures
            res matches AssetData::DefaultPriceFeed { symbol, rate, decimals, timestamp }
                && symbol@.len() == 0 && rate == 0 && decimals == 0 && timestamp == 0,
    {
        AssetData::DefaultPriceFeed { symbol: String::new(), rate: 0, decimals: 0, timestamp: 0 }
    }
}

/// A feed value with the oracle's signature of it, when it signs.
pub struct AssetDataResult {
    pub data: AssetData,
    pub signature: Option<String>,
}

impl Default for AssetDataResult {
    fn default() -> (res: Self)
        ensures
            res.data matches AssetData::DefaultPriceFeed { symbol, rate, decimals, timestamp }
                && symbol@.len() == 0 && rate == 0 && decimals == 0 && timestamp == 0,
            res.signature is None,
    {
        AssetDataResult { data: AssetData::default(), signature: None }
    }
}

/// A price with what describes it.
pub struct RateDataLight {
    pub symbol: String,
    pub rate: u64,
    pub decimals: u64,
    pub timestamp: u64,
    pub signature: Option<String>,
}

impl Default for RateDataLight {
    fn default() -> (res: Self)
        ensures
            res.symbol@.len() == 0 && res.rate == 0 && res.decimals == 0 && res.timestamp == 0 && res.signature is None,
    {
        RateDataLight { symbol: String::new(), rate: 0, decimals: 0, timestamp: 0, signature: None }
    }
}

/// The price that a feed value carries: the rate of a price feed; other data
/// has no price.
pub fn price_of(data: &AssetData) -> (res: Result<u64, PythiaError>)
    ensures
        match *data {
            AssetData::DefaultPriceFeed { rate, .. } => res == Ok::<u64, PythiaError>(rate),
            AssetData::CustomPriceFeed { rate, .. } => res == Ok::<u64, PythiaError>(rate),
            _ => res == Err::<u64, PythiaError>(PythiaError::UnsupportedAssetDataType),
        },
{
    match data {
        AssetData::DefaultPriceFeed { rate, .. } => Ok(*rate),
        AssetData::CustomPriceFeed { rate, .. } => Ok(*rate),
        _ => Err(PythiaError::UnsupportedAssetDataType),
    }
}

} // verus!
