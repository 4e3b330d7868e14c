//! Constant-product liquidity pools: access control, pool registry, share
//! ledger and swap pricing, with every balance product taken in 256 bits.

pub mod laws;
pub mod ledger;
pub mod pallet;
pub mod pool;
pub mod types;
pub mod wide;
