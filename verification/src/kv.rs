//! A key-value service: its messages, their framing on the wire, its
//! storage and how it answers commands.
pub mod error;
pub mod frame;
pub mod network;
pub mod pb;
pub mod service;
pub mod storage;
