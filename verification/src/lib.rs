//! Ingestion, normalization and persistence of OHLC candle time series.
//!
//! The library validates raw delimited candle files, canonicalizes timeframe
//! codes, assembles per-instrument records and keeps them in a symbol store.
pub mod assemble;
pub mod clock;
pub mod error;
pub mod format;
pub mod github;
pub mod local;
pub mod numbers;
pub mod quote;
pub mod record;
pub mod store;
pub mod text;
pub mod timeframe;
