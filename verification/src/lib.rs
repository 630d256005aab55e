//! Time-series charts for a terminal: grid indexing, colour tables, a circular buffer of
//! per-epoch metrics and the loading of Prometheus responses into it, with verified contracts.

pub mod index;
pub mod point_order;
pub mod selection;
pub mod rgb;
pub mod color;
pub mod text;
pub mod timeseries;
pub mod timeseries_laws;
pub mod missing_values;
pub mod prometheus;
pub mod loading_laws;
pub mod charts;
pub mod requests;
pub mod renderer;
pub mod decorations;
