//! A discrete event simulator's network layer: object paths, parameter
//! stores, channels, packets and message payloads.
pub mod strs;
pub mod path;
pub mod common;
pub mod keyed;
pub mod par;
pub mod channel;
pub mod time;
pub mod message;
pub mod module;
pub mod packet;
pub mod ndl;
pub mod gate;
pub mod hooks;
