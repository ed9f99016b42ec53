//! Paper-trading engine: technical indicators, a deterministic backtest
//! replay, market feeds, and per-session order matching with escrow.
//!
//! Every price, amount, quantity and fraction is a fixed-point integer with
//! eight decimals (see [`fixed`]).

pub mod fixed;
pub mod model;
pub mod archive;
pub mod backtest;
pub mod feed;
pub mod history;
pub mod indicators;
pub mod kline;
pub mod registry;
pub mod request;
pub mod session;
pub mod text;
mod outside;
