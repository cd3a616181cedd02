//! The options of the program.

use vstd::prelude::*;

use crate::addr::{IpAddr, Ipv4Addr};

verus! {

/// The options of the program, as they are given on the command line.
#[derive(Debug)]
pub struct Args {
    /// Name of the status and control group of radiod.
    pub status_name: String,
    /// Address, as `ip:port`, of the server that is started where no servers are configured.
    pub bind_addr: String,
    /// Address of the network interface on which multicast groups are joined.
    pub mcast_iface: Option<IpAddr>,
    /// Sample rate that is offered to clients at first.
    pub iq_samplerate: u32,
    /// Presets by sample rate, as `rate:preset,rate:preset,...`.
    pub preset_map: String,
    /// Preset for a sample rate without one.
    pub default_preset: String,
    /// Largest number of receivers of the server that is started where no servers are configured.
    pub max_trx: u8,
    /// Seconds between two polls of radiod.
    pub poll_interval_secs: u64,
    /// Path of a configuration file.
    pub config: Option<String>,
}

impl Default for Args {
    fn default() -> (r: Args)
        ensures
            r.status_name@ == "hf.local"@,
            r.bind_addr@ == "0.0.0.0:40001"@,
            r.mcast_iface is None,
            r.iq_samplerate == 48_000,
            r.preset_map@ == "12000:iq,48000:iq48,96000:iq96"@,
            r.default_preset@ == "iq48"@,
            r.max_trx == 2,
            r.poll_interval_secs == 5,
            r.config is None,
    {
        Args {
            status_name: "hf.local".to_owned(),
            bind_addr: "0.0.0.0:40001".to_owned(),
            mcast_iface: None,
            iq_samplerate: 48_000,
            preset_map: "12000:iq,48000:iq48,96000:iq96".to_owned(),
            default_preset: "iq48".to_owned(),
            max_trx: 2,
            poll_interval_secs: 5,
            config: None,
        }
    }
}

impl Args {
    /// The network interface for multicast. One with an IPv6 address cannot be used.
    pub fn iface_v4(&self) -> (r: Option<Ipv4Addr>)
        ensures
            r == (match self.mcast_iface {
                Some(IpAddr::V4(v4)) => Some(v4),
                _ => None,
            }),
    {
        match self.mcast_iface {
            Some(IpAddr::V4(v4)) => Some(v4),
            _ => None,
        }
    }
}

} // verus!
