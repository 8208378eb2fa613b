//! Settings of the FUSE server daemon.
use vstd::prelude::*;
use vstd::string::*;

verus! {

/// Settings of the FUSE server daemon.
#[derive(Debug)]
pub struct FuseServerConfig {
    pub server: ServerConfig,
}

/// Where the FUSE server listens and where it finds the controller.
#[derive(Debug)]
pub struct ServerConfig {
    pub listen: String,
    pub controller_addr: String,
}

impl Default for FuseServerConfig {
    /// Listens on `0.0.0.0:9101` and reaches the controller at `127.0.0.1:9100`.
    fn default() -> (r: Self)
        ensures
            r.server.listen@ == "0.0.0.0:9101"@,
            r.server.controller_addr@ == "127.0.0.1:9100"@,
    {
        FuseServerConfig {
            server: ServerConfig {
                listen: String::from_str("0.0.0.0:9101"),
                controller_addr: String::from_str("127.0.0.1:9100"),
            },
        }
    }
}

} // verus!
