pub mod abi;
pub mod address;
pub mod call_data;
pub mod canister;
pub mod json;
pub mod keyed;
pub mod metrics;
pub mod signature;
pub mod multicall;
pub mod multicall_codec;
pub mod params;
pub mod processors;
pub mod text;
pub mod validator;
pub mod web3;
