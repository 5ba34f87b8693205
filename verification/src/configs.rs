//! Settings of the cache server.
use vstd::prelude::*;

verus! {

/// The application's settings. A field missing from the configuration file
/// and the environment takes its value from `AppConfig::default`.
#[derive(Debug)]
pub struct AppConfig {
    pub host: String,
    pub port: u16,
    pub log_level: String,
    pub data_dir: String,
    pub metrics_port: u16,
    pub snapshot_interval: u64,
}

impl Default for AppConfig {
    /// Listens on 127.0.0.1:8080, logs at level `info`, keeps data under
    /// `./data`, serves metrics on port 9090 and snapshots every 300 seconds.
    fn default() -> (r: Self)
        ensures
            r.host@ == "127.0.0.1"@,
            r.port == 8080,
            r.log_level@ == "info"@,
            r.data_dir@ == "./data"@,
            r.metrics_port == 9090,
            r.snapshot_interval == 300,
    {
        AppConfig {
            host: "127.0.0.1".to_owned(),
            log_level: "info".to_owned(),
            data_dir: "./data".to_owned(),
            port: 8080,
            metrics_port: 9090,
            snapshot_interval: 300,
        }
    }
}

} // verus!
