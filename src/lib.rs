//! Escrow-style pooling: an administrator opens named pools with a fixed
//! per-person stake and a capacity, accounts join by depositing the stake and
//! may leave before resolution, and the pool's creator finally pays out the
//! pot to a list of winners.
//!
//! The library holds the pool registry and decides every operation; the host
//! ledger supplies the caller's identity, the block time, the attached deposit
//! and the storage namespace digest, and carries out the transfers that the
//! operations hand back.

pub mod pool;
pub mod registry;
pub mod contract;
pub mod laws;

pub use contract::{stranded_remainder, winner_payout, Contract, PoolError, Transfer};
pub use pool::{Pool, StorageKeys};
pub use registry::PoolRegistry;
