//! A small weather-forecast core: a generic string-keyed cache, a caching
//! fetch wrapper over an abstract fetch capability, a metric extractor that
//! walks a labelled document tree, and an aligner that combines per-metric
//! slot arrays with a timestamp list into fully-populated data points.

pub mod cache;
pub mod http;
pub mod numbers;
pub mod result;
pub mod server;
pub mod timeparse;
