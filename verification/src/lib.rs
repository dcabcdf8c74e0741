//! The logic of xmxx-companion, the online half of a Monero cold wallet: asking a
//! daemon, finding the wallet's outputs, building unsigned transactions for the
//! device, and publishing the signed ones.
pub mod bytes;
pub mod chain;
pub mod config;
pub mod fetch;
pub mod http;
pub mod json;
pub mod laws;
pub mod list;
pub mod outs;
pub mod page;
pub mod payload;
pub mod relay;
pub mod rpc;
pub mod scannable;
pub mod select;
pub mod send;
pub mod state;
pub mod sync;
pub mod text;
pub mod wallet;
pub mod words;
