//! A decentralized attendance ledger.
//!
//! Users register once and may record at most one attendance event per
//! calendar day. The guarantee "one record per user per day" is structural:
//! the storage slot that holds a record is derived deterministically from
//! the pair `(owner identity, day number)`, and the storage substrate lets
//! a slot be created only once. The modules below cover, in dependency
//! order: error signals, the fixed-layout record codec, canonical address
//! derivation, a model of the storage substrate, the registered entities,
//! and the clock-in orchestration that composes them.

pub mod accounts;
pub mod clock_in;
pub mod codec;
pub mod derivation;
pub mod errors;
pub mod ledger;
