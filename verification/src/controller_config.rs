//! Settings of the controller daemon.
use vstd::prelude::*;
use vstd::string::*;

verus! {

/// Settings of the controller daemon.
#[derive(Debug)]
pub struct ControllerConfig {
    pub server: ServerConfig,
    pub storage: StorageConfig,
}

/// Where the controller listens.
#[derive(Debug)]
pub struct ServerConfig {
    pub listen: String,
}

/// Where the controller keeps its store.
#[derive(Debug)]
pub struct StorageConfig {
    pub db_path: String,
}

impl Default for ControllerConfig {
    /// Listens on `0.0.0.0:9100` and keeps the store at `/var/lib/afs/controller.db`.
    fn default() -> (r: Self)
        ensures
            r.server.listen@ == "0.0.0.0:9100"@,
            r.storage.db_path@ == "/var/lib/afs/controller.db"@,
    {
        ControllerConfig {
            server: ServerConfig { listen: String::from_str("0.0.0.0:9100") },
            storage: StorageConfig { db_path: String::from_str("/var/lib/afs/controller.db") },
        }
    }
}

} // verus!
