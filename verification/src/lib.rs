//! Core of an inference-serving gateway: a name-keyed model registry with
//! admission-controlled dispatch, a streaming protocol bridge that turns a
//! backend's record stream into token events, response assembly in streaming
//! and aggregate modes, and the process metrics they report to.

pub mod config;
pub mod metrics;
pub mod model;
pub mod routes;
pub mod stream;
pub mod text;
