//! Off-chain vault client logic for a Bitcoin-backed bridge parachain.
//!
//! The crate holds the decision cores of the client's long-running tasks:
//! the cancellation scheduler that fires cancel extrinsics when a parachain
//! block crosses a request deadline, the theft detector that matches Bitcoin
//! transaction outputs against the registered vaults, the collateral
//! maintainer, the open-request executor that reconciles obligations against
//! the wallet history, and the startup registration decisions. Network and
//! wallet access stay outside; the functions here take plain values and
//! return the actions to perform.

pub mod collateral;
pub mod error;
pub mod hexcode;
pub mod issue;
pub mod network;
pub mod payment;
pub mod replace;
pub mod scheduler;
pub mod startup;
pub mod types;
pub mod vaults;
