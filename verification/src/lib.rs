//! Core engine of a smart-card-to-broker bridge: protocol classification
//! from the reset answer, card-session bookkeeping, reader presence
//! tracking, the messaging-task registry and the broker wire envelopes,
//! all with verified contracts.

pub mod atr;
pub mod card;
pub mod config;
pub mod envelope;
pub mod hexutil;
pub mod notify;
pub mod pool;
pub mod registry;
pub mod strutil;
