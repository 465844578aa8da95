//! Pythia: the bookkeeping and decision logic of a subscription-publishing
//! service for Ethereum-family smart contracts.

pub mod jobs;
pub mod laws;
pub mod methods;
pub mod migrations;
pub mod types;
pub mod utils;
