//! Host side of the Ledger Bitcoin application protocol: frame codec, command
//! encoders, Merkle trees, the delegated store that answers the device's data
//! requests, and the session interpreter that ties them together.
pub mod apdu;
pub mod bytes;
pub mod merkle;
pub mod store;
pub mod command;
pub mod ledger;

pub use ledger::{LedgerCommand, LedgerError, LedgerInterpreter, LedgerResponse};
