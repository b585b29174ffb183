//! Planning and bookkeeping for the send-to-Ethereum fee scenarios of the
//! bridge test runner: fee levels derived from a minimum chain fee, the
//! transactions that carry the bridge messages, and the fee tallies that a
//! run is expected to collect.

pub mod amount;
pub mod coin;
pub mod tally;
pub mod fees;
pub mod model;
pub mod sends;
pub mod txs;
pub mod msgs;
pub mod plan;
pub mod proposal;
pub mod expect;

pub use amount::Amount;
