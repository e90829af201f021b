//! A two-counter ledger ("OOGA" and "BOOGA") kept in a key/value store and
//! driven through a single opcode-dispatched entry point.
//!
//! Every stored counter is the 16-byte little-endian encoding of a `u128`.
//! All functions here are verified: contracts are stated over the store's
//! view, a `Map` from key characters to value bytes.
//!
//! - `codec`: the encoding of counters.
//! - `storage`: the key/value store and typed pointers into it.
//! - `model`: the key scheme and what each operation does, as mathematics.
//! - `ledger`: the contract with its accessors, minting and exchanging.
//! - `dispatch`: decoding of input tokens and the entry point `execute`.
//! - `supply`: the invariant that ties the totals to the balances.
//! - `error`: the failures of a call.

pub mod codec;
pub mod dispatch;
pub mod error;
pub mod ledger;
pub mod model;
pub mod storage;
pub mod supply;

pub use crate::dispatch::{Call, CallResponse, Context, Opcode};
pub use crate::error::LedgerError;
pub use crate::ledger::OogaBoogaContract;
pub use crate::storage::{Storage, StoragePointer};
