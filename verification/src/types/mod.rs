pub mod errors;
pub mod methods;
pub mod whitelist;
pub mod chains;
pub mod balance;
pub mod subscription;
pub mod insufficient;
pub mod withdraw;
pub mod timer;
pub mod pagination;
pub mod state;
pub mod publishable;
pub mod asset_data;
pub mod subs;
