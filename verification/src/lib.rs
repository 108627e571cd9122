//! Transaction processing for a multi-signature wallet indexer: the event
//! state machine, the call-payload decoder and the rules of the relational
//! store it feeds.

pub mod error;
pub mod text;
pub mod number;
pub mod hexcode;
pub mod address;
pub mod json;
pub mod layout;
pub mod models;
pub mod store;
pub mod replay;
pub mod wire;
pub mod payload;
pub mod decoder;
pub mod events;
pub mod laws;
pub mod fetch;
pub mod chunks;
pub mod processor;
pub mod memory;
pub mod vectors;
