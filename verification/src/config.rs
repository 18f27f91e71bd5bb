//! Configuration values the core consumes: server binding, per-process
//! limits, per-model load descriptions and the safety denylist. File and
//! environment loading is a collaborator's job; the core only needs the
//! already-validated values and their defaults.

use vstd::prelude::*;

verus! {

/// Where the gateway listens and whether it serves its bundled page.
pub struct ServerConfig {
    pub host: String,
    pub port: u16,
    pub enable_ui: bool,
}

impl ServerConfig {
    /// Whether the bundled page is served when the configuration is silent.
    pub fn default_ui() -> (r: bool)
        ensures
            r,
    {
        true
    }
}

impl Default for ServerConfig {
    fn default() -> (r: Self)
        ensures
            r.host@ == "0.0.0.0"@,
            r.port == 8080,
            r.enable_ui,
    {
        ServerConfig { host: "0.0.0.0".to_owned(), port: 8080, enable_ui: true }
    }
}

/// Process-wide ceilings applied to every request and model.
pub struct LimitConfig {
    pub max_tokens: usize,
    pub max_concurrent: usize,
    pub queue_depth: usize,
}

impl LimitConfig {
    /// The token budget used when a request names none.
    pub fn default_max_tokens() -> (r: usize)
        ensures
            r == 512,
    {
        512
    }

    /// The concurrency ceiling used when a model names none.
    pub fn default_max_concurrent() -> (r: usize)
        ensures
            r == 2,
    {
        2
    }

    /// The hand-off channel capacity between producer and consumer.
    pub fn default_queue_depth() -> (r: usize)
        ensures
            r == 32,
    {
        32
    }
}

impl Default for LimitConfig {
    fn default() -> (r: Self)
        ensures
            r.max_tokens == 512,
            r.max_concurrent == 2,
            r.queue_depth == 32,
    {
        LimitConfig {
            max_tokens: LimitConfig::default_max_tokens(),
            max_concurrent: LimitConfig::default_max_concurrent(),
            queue_depth: LimitConfig::default_queue_depth(),
        }
    }
}

/// A declarative description of one model to load. Immutable once the load
/// request is issued.
pub struct ModelConfig {
    pub name: String,
    pub path: Option<String>,
    pub device: Option<String>,
    pub quantization: Option<String>,
    pub max_concurrent: Option<usize>,
    pub backend: Option<String>,
    pub arch: Option<String>,
    pub context_length: Option<usize>,
    pub server_url: Option<String>,
}

/// Forbidden substrings; a prompt matching any of them is rejected before a
/// model is touched.
pub struct SafetyConfig {
    pub denylist: Vec<String>,
}

impl Default for SafetyConfig {
    fn default() -> (r: Self)
        ensures
            r.denylist@.len() == 0,
    {
        SafetyConfig { denylist: Vec::new() }
    }
}

/// The whole configuration surface the core reads.
pub struct AppConfig {
    pub server: ServerConfig,
    pub models: Vec<ModelConfig>,
    pub limits: LimitConfig,
    pub safety: SafetyConfig,
}

impl Default for AppConfig {
    fn default() -> (r: Self)
        ensures
            r.server.host@ == "0.0.0.0"@,
            r.server.port == 8080,
            r.server.enable_ui,
            r.models@.len() == 0,
            r.limits.max_tokens == 512,
            r.limits.max_concurrent == 2,
            r.limits.queue_depth == 32,
            r.safety.denylist@.len() == 0,
    {
        AppConfig {
            server: ServerConfig::default(),
            models: Vec::new(),
            limits: LimitConfig::default(),
            safety: SafetyConfig::default(),
        }
    }
}

} // verus!
