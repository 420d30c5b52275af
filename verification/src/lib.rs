//! Metric extraction and rate normalization for a hardware telemetry agent.
//!
//! The library turns raw text snapshots (kernel accounting files, vendor tool
//! output, a hardware sensor tree) into a flat metric snapshot, and converts
//! monotonically increasing cumulative counters into point-in-time rates by
//! keeping a baseline per counter name.

use vstd::prelude::*;

pub mod cpu;
pub mod gpu;
pub mod memory;
pub mod network;
pub mod pattern;
pub mod sensors;
pub mod snapshot;
pub mod text;
pub mod tracker;

verus! {

/// Runtime configuration of the surrounding agent: where to publish, under
/// which reporter name, and which network interface to account for.
pub struct Config {
    pub reporter: String,
    pub publish_url: String,
    pub network_interface: String,
}

/// Reporter name used when the configuration file does not set one.
pub fn default_reporter() -> (r: String)
    ensures
        r@ == "linux-sensor-agent"@,
{
    proof {
        reveal_strlit("linux-sensor-agent");
    }
    "linux-sensor-agent".to_owned()
}

/// Publish endpoint used when the configuration file does not set one.
pub fn default_publish_url() -> (r: String)
    ensures
        r@ == "http://localhost:8080/publish"@,
{
    proof {
        reveal_strlit("http://localhost:8080/publish");
    }
    "http://localhost:8080/publish".to_owned()
}

/// Network interface accounted for when the configuration file does not set one.
pub fn default_network_interface() -> (r: String)
    ensures
        r@ == "eth0"@,
{
    proof {
        reveal_strlit("eth0");
    }
    "eth0".to_owned()
}

} // verus!
