//! The interactive console's library side: its state machine, the mapping
//! of protocol messages to what it shows, and the text helpers of its views.

pub mod app;
pub mod client;
pub mod views;
