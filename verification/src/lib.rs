//! Core of a cross-chain signing pipeline: message intents, durable FIFO
//! channels, a FROST-style attempt manager, per-session signer tasks, and the
//! CLSAG linkable ring signature scheme used for Monero transactions.

pub mod attempt;
pub mod batches;
pub mod channel;
pub mod clsag;
pub mod cosigner;
pub mod curve;
pub mod db;
pub mod ids;
pub mod keyed;
pub mod messages;
pub mod provided;
pub mod queue;
pub mod report;
pub mod reqres;
pub mod scan_db;
pub mod signers;
pub mod substrate;
pub mod wallet;
