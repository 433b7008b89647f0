//! A redirect service: short keys resolve to target URLs held in a key/value
//! store, and a control channel carries binary commands that change the store.

pub mod codec;
pub mod command;
pub mod consumer;
pub mod http;
pub mod processor;
pub mod store;
pub mod text;
pub mod wire;
