//! The core of a bench telemetry collector: the store that holds the latest
//! value of every measurement source, the metrics document rendered from it,
//! the calibration campaign that derives per-channel offsets, and the
//! decoding of what the sources send.
//!
//! The store, the exporter and the campaign are generic in the type of a
//! measured value: they move values around and never compute with them.
//! Whoever owns the numbers adds offsets, smooths readings and writes values
//! out as text.

pub mod calibration;
pub mod config;
pub mod decimal;
pub mod ds18b20;
pub mod max6675;
pub mod metric;
pub mod netio;
pub mod ring_buffer;
pub mod scope;
pub mod store;
pub mod text;
