//! The broker's configuration.
use vstd::prelude::*;

verus! {

/// A broker: where it finds its KRaft logs.
#[derive(Debug)]
pub struct Server {
    pub log_dir: String,
}

impl Server {
    /// A broker reading its logs under `/tmp/kraft-combined-logs`.
    pub fn new() -> (r: Server)
        ensures
            r.log_dir@ == "/tmp/kraft-combined-logs"@,
    {
        Server { log_dir: "/tmp/kraft-combined-logs".to_owned() }
    }

    /// A broker reading its logs under `log_dir`.
    pub fn with_log_dir(log_dir: String) -> (r: Server)
        ensures
            r.log_dir@ == log_dir@,
    {
        Server { log_dir }
    }
}

} // verus!
