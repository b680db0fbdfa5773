//! A delegated-staking ledger: validators register with a session key,
//! nominators back them directly or through other nominators, and at every
//! epoch boundary the highest-staked validators become the next authority set.
pub mod account_map;
pub mod dpos;
pub mod laws;
pub mod model;
pub mod pallet;
pub mod selection;
pub mod types;

pub use crate::account_map::AccountMap;
pub use crate::dpos::DPoS;
pub use crate::pallet::{Error, Event, Pallet, Transfer, TransferError};
pub use crate::types::{AccountId, Balance, BlockNumber, Config, SessionKey};
