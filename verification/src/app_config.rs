//! Gateway configuration records.
//!
//! [`AppConfig`] is the static process configuration; [`DynamicConfig`] is
//! the rate-limit rule set pushed at run time by the registry. Reading the
//! files and wires these come from happens outside the library; here they
//! are plain values the verified logic works on.

use vstd::prelude::*;

verus! {

/// Static process configuration.
#[derive(Debug, Clone)]
pub struct AppConfig {
    pub port: u32,
    pub metric_port: Option<u32>,
    pub timeout: Option<u64>,
    /// The RPC services this gateway subscribes to.
    pub subscribe_service: Vec<String>,
    /// Service-discovery configuration.
    pub sd: ServerDiscover,
}

/// Service-discovery configuration.
#[derive(Debug, Clone)]
pub struct ServerDiscover {
    pub nacos: NacosConfig,
}

/// Connection settings for the registry.
#[derive(Debug, Clone)]
pub struct NacosConfig {
    pub server_addr: String,
    pub namespace: Option<String>,
    pub username: Option<String>,
    pub password: Option<String>,
    pub service_name: String,
}

/// The rate-limit rule set fetched from the registry.
#[derive(Debug, Clone)]
pub struct DynamicConfig {
    pub url_rate: Option<Vec<UrlRateConfig>>,
}

impl Default for DynamicConfig {
    /// An empty rule set.
    fn default() -> (d: Self)
        ensures
            d.url_rate is None,
    {
        DynamicConfig { url_rate: None }
    }
}

/// One rate-limit rule: a URL pattern, the methods it covers, and the
/// tokens granted per second.
#[derive(Debug, Clone)]
pub struct UrlRateConfig {
    pub url: String,
    pub method: Vec<String>,
    pub rate: u64,
}

} // verus!
