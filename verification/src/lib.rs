//! Verified core of the BTC oracle proxy: decision logic, window arithmetic,
//! state bookkeeping and text helpers, proved with Verus.

pub mod models;
pub mod signals;
pub mod text;
pub mod time;
pub mod clob_state;
pub mod history;
pub mod tui;
pub mod window;
pub mod backoff;
pub mod chainlink;
pub mod http_api;
pub mod config;
pub mod writer;
pub mod display;
pub mod frames;
pub mod monitoring;
pub mod discovery;
pub mod dashboard;
pub mod sampler;
pub mod presign;
pub mod feeds;
