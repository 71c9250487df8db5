//! Verified core of a crypto and prediction-market trading agent: the live
//! runner registry and its decision clock, window and interval arithmetic,
//! the backtest timeline, exchange request signing, and the text handling of
//! its tools.
pub mod text;
pub mod symbols;
pub mod intervals;
pub mod paths;
pub mod tools;
pub mod scripts;
pub mod runner;
pub mod windows;
pub mod timeline;
pub mod binance;
pub mod lines;
pub mod selector;
pub mod ticks;
pub mod settlement;
pub mod backfill;
pub mod edge;
pub mod dates;
