//! What a node is told about itself.
use crate::address::{in_multicast, is_multicast, Ipv4, SocketAddress};
use crate::error::{ConfigFault, Error};
use crate::double::{Double, FIFTIETH, NINE_TENTHS, TENTH, ZERO};
use crate::text::same_text;
use vstd::prelude::*;
use vstd::utf8::encode_utf8;

verus! {

/// 2^20 bytes.
pub const MIB: u64 = 1_048_576;

/// Spilling to disk, which is not there yet.
#[derive(Clone, Copy, Debug, PartialEq, Eq, Structural)]
pub struct DiskConfig {
    pub enabled: bool,
}

impl Default for DiskConfig {
    fn default() -> (r: Self)
        ensures
            !r.enabled,
    {
        DiskConfig { enabled: false }
    }
}

/// The settings of a node.
#[derive(Clone, Debug)]
pub struct Config {
    pub cluster_name: String,
    pub cluster_secret: Option<String>,
    pub listen: SocketAddress,
    pub advertise_ip: Option<Ipv4>,
    pub multicast_group: Ipv4,
    pub discovery_port: u16,
    pub multicast_interface: Ipv4,
    pub discovery_enabled: bool,
    pub seeds: Vec<SocketAddress>,
    pub ram_fraction: Double,
    pub ram_reserve_bytes: u64,
    pub ram_reserve_fraction: Double,
    /// The most that this node contributes, whatever its RAM.
    pub ram_limit_bytes: Option<u64>,
    pub chunk_bytes: usize,
    /// How payloads travel between nodes. Control always takes TCP.
    pub data_transport: String,
    pub udp_payload_bytes: usize,
    pub udp_window_packets: usize,
    pub udp_initial_rto_ms: u64,
    pub udp_pacing_micros: u64,
    pub udp_max_retries: u32,
    pub udp_max_sessions: usize,
    pub lease_seconds: u64,
    pub vram_reserve_bytes: u64,
    pub vram_reserve_fraction: Double,
    pub disk: DiskConfig,
}

/// The model of a [`Config`].
pub struct ConfigView {
    pub cluster_name: Seq<char>,
    pub cluster_secret: Option<Seq<char>>,
    pub listen: SocketAddress,
    pub advertise_ip: Option<Ipv4>,
    pub multicast_group: Ipv4,
    pub discovery_port: u16,
    pub multicast_interface: Ipv4,
    pub discovery_enabled: bool,
    pub seeds: Seq<SocketAddress>,
    pub ram_fraction: Double,
    pub ram_reserve_bytes: u64,
    pub ram_reserve_fraction: Double,
    pub ram_limit_bytes: Option<u64>,
    pub chunk_bytes: usize,
    pub data_transport: Seq<char>,
    pub udp_payload_bytes: usize,
    pub udp_window_packets: usize,
    pub udp_initial_rto_ms: u64,
    pub udp_pacing_micros: u64,
    pub udp_max_retries: u32,
    pub udp_max_sessions: usize,
    pub lease_seconds: u64,
    pub vram_reserve_bytes: u64,
    pub vram_reserve_fraction: Double,
    pub disk: DiskConfig,
}

/// The view of an optional text.
pub open spec fn text_view(s: Option<String>) -> Option<Seq<char>> {
    match s {
        Some(t) => Some(t@),
        None => None,
    }
}

impl View for Config {
    type V = ConfigView;

    open spec fn view(&self) -> ConfigView {
        ConfigView {
            cluster_name: self.cluster_name@,
            cluster_secret: text_view(self.cluster_secret),
            listen: self.listen,
            advertise_ip: self.advertise_ip,
            multicast_group: self.multicast_group,
            discovery_port: self.discovery_port,
            multicast_interface: self.multicast_interface,
            discovery_enabled: self.discovery_enabled,
            seeds: self.seeds@,
            ram_fraction: self.ram_fraction,
            ram_reserve_bytes: self.ram_reserve_bytes,
            ram_reserve_fraction: self.ram_reserve_fraction,
            ram_limit_bytes: self.ram_limit_bytes,
            chunk_bytes: self.chunk_bytes,
            data_transport: self.data_transport@,
            udp_payload_bytes: self.udp_payload_bytes,
            udp_window_packets: self.udp_window_packets,
            udp_initial_rto_ms: self.udp_initial_rto_ms,
            udp_pacing_micros: self.udp_pacing_micros,
            udp_max_retries: self.udp_max_retries,
            udp_max_sessions: self.udp_max_sessions,
            lease_seconds: self.lease_seconds,
            vram_reserve_bytes: self.vram_reserve_bytes,
            vram_reserve_fraction: self.vram_reserve_fraction,
            disk: self.disk,
        }
    }
}

impl ConfigView {
    /// The first setting that is out of its bounds.
    pub open spec fn fault(self) -> Option<ConfigFault> {
        if !self.ram_fraction.between(TENTH, NINE_TENTHS) {
            Some(ConfigFault::RamFraction)
        } else if !self.ram_reserve_fraction.between(ZERO, NINE_TENTHS) {
            Some(ConfigFault::RamReserveFraction)
        } else if !(4096 <= self.chunk_bytes <= 64 * MIB) {
            Some(ConfigFault::ChunkBytes)
        } else if self.data_transport != "tcp"@ && self.data_transport != "udp"@ {
            Some(ConfigFault::DataTransport)
        } else if !(512 <= self.udp_payload_bytes <= 1200) {
            Some(ConfigFault::UdpPayloadBytes)
        } else if !(2 <= self.udp_window_packets <= 256) {
            Some(ConfigFault::UdpWindowPackets)
        } else if !(10 <= self.udp_initial_rto_ms <= 5000) {
            Some(ConfigFault::UdpInitialRto)
        } else if !(1 <= self.udp_pacing_micros <= 100_000) {
            Some(ConfigFault::UdpPacing)
        } else if !(1 <= self.udp_max_retries <= 64) {
            Some(ConfigFault::UdpMaxRetries)
        } else if !(1 <= self.udp_max_sessions <= 4096) {
            Some(ConfigFault::UdpMaxSessions)
        } else if !(10 <= self.lease_seconds <= 86400) {
            Some(ConfigFault::LeaseSeconds)
        } else if !self.vram_reserve_fraction.between(ZERO, NINE_TENTHS) {
            Some(ConfigFault::VramReserveFraction)
        } else if !in_multicast(self.multicast_group) {
            Some(ConfigFault::MulticastGroup)
        } else if !(1 <= encode_utf8(self.cluster_name).len() <= 128) {
            Some(ConfigFault::ClusterName)
        } else if self.disk.enabled {
            Some(ConfigFault::DiskSpill)
        } else if self.cluster_secret is Some && encode_utf8(self.cluster_secret->0).len() == 0 {
            Some(ConfigFault::ClusterSecret)
        } else {
            None
        }
    }

    /// Every setting is within its bounds.
    pub open spec fn valid(self) -> bool {
        self.fault() is None
    }
}

/// The settings of a node that was told nothing.
pub open spec fn default_config() -> ConfigView {
    ConfigView {
        cluster_name: "trainpool"@,
        cluster_secret: None,
        listen: SocketAddress::V4 { ip: 0, port: 7432 },
        advertise_ip: None,
        multicast_group: 0xefff_4a20,
        discovery_port: 7433,
        multicast_interface: 0,
        discovery_enabled: true,
        seeds: Seq::empty(),
        ram_fraction: Double { bits: NINE_TENTHS },
        ram_reserve_bytes: 1_073_741_824,
        ram_reserve_fraction: Double { bits: TENTH },
        ram_limit_bytes: None,
        chunk_bytes: 67_108_864,
        data_transport: "udp"@,
        udp_payload_bytes: 1200,
        udp_window_packets: 64,
        udp_initial_rto_ms: 50,
        udp_pacing_micros: 20,
        udp_max_retries: 8,
        udp_max_sessions: 128,
        lease_seconds: 300,
        vram_reserve_bytes: 100_663_296,
        vram_reserve_fraction: Double { bits: FIFTIETH },
        disk: DiskConfig { enabled: false },
    }
}

impl Default for Config {
    fn default() -> (r: Self)
        ensures
            r@ == default_config(),
    {
        let seeds: Vec<SocketAddress> = Vec::new();
        assert(seeds@ =~= Seq::<SocketAddress>::empty());
        Config {
            cluster_name: "trainpool".to_owned(),
            cluster_secret: None,
            listen: SocketAddress::V4 { ip: 0, port: 7432 },
            advertise_ip: None,
            multicast_group: 0xefff_4a20,
            discovery_port: 7433,
            multicast_interface: 0,
            discovery_enabled: true,
            seeds,
            ram_fraction: Double { bits: NINE_TENTHS },
            ram_reserve_bytes: 1024 * MIB,
            ram_reserve_fraction: Double { bits: TENTH },
            ram_limit_bytes: None,
            chunk_bytes: (64 * MIB) as usize,
            data_transport: "udp".to_owned(),
            udp_payload_bytes: 1200,
            udp_window_packets: 64,
            udp_initial_rto_ms: 50,
            udp_pacing_micros: 20,
            udp_max_retries: 8,
            udp_max_sessions: 128,
            lease_seconds: 300,
            // A small floor leaves room for CUDA contexts on small cards; the
            // fraction takes over on large ones.
            vram_reserve_bytes: 96 * MIB,
            vram_reserve_fraction: Double { bits: FIFTIETH },
            disk: DiskConfig { enabled: false },
        }
    }
}

impl Config {
    /// The first setting that is out of its bounds, if there is one.
    pub fn validate(&self) -> (r: Result<(), Error>)
        ensures
            r == match self@.fault() {
                Some(fault) => Err(Error::Config { fault }),
                None => Ok(()),
            },
    {
        match self.first_fault() {
            Some(fault) => Err(Error::Config { fault }),
            None => Ok(()),
        }
    }

    fn first_fault(&self) -> (r: Option<ConfigFault>)
        ensures
            r == self@.fault(),
    {
        if !self.ram_fraction.within(TENTH, NINE_TENTHS) {
            return Some(ConfigFault::RamFraction);
        }
        if !self.ram_reserve_fraction.within(ZERO, NINE_TENTHS) {
            return Some(ConfigFault::RamReserveFraction);
        }
        if self.chunk_bytes < 4096 || self.chunk_bytes > 67_108_864 {
            return Some(ConfigFault::ChunkBytes);
        }
        if !same_text(self.data_transport.as_str(), "tcp") && !same_text(self.data_transport.as_str(), "udp") {
            return Some(ConfigFault::DataTransport);
        }
        if self.udp_payload_bytes < 512 || self.udp_payload_bytes > 1200 {
            return Some(ConfigFault::UdpPayloadBytes);
        }
        if self.udp_window_packets < 2 || self.udp_window_packets > 256 {
            return Some(ConfigFault::UdpWindowPackets);
        }
        if self.udp_initial_rto_ms < 10 || self.udp_initial_rto_ms > 5000 {
            return Some(ConfigFault::UdpInitialRto);
        }
        if self.udp_pacing_micros < 1 || self.udp_pacing_micros > 100_000 {
            return Some(ConfigFault::UdpPacing);
        }
        if self.udp_max_retries < 1 || self.udp_max_retries > 64 {
            return Some(ConfigFault::UdpMaxRetries);
        }
        if self.udp_max_sessions < 1 || self.udp_max_sessions > 4096 {
            return Some(ConfigFault::UdpMaxSessions);
        }
        if self.lease_seconds < 10 || self.lease_seconds > 86400 {
            return Some(ConfigFault::LeaseSeconds);
        }
        if !self.vram_reserve_fraction.within(ZERO, NINE_TENTHS) {
            return Some(ConfigFault::VramReserveFraction);
        }
        if !is_multicast(self.multicast_group) {
            return Some(ConfigFault::MulticastGroup);
        }
        let name: &[u8] = self.cluster_name.as_str().as_bytes();
        if name.len() < 1 || name.len() > 128 {
            return Some(ConfigFault::ClusterName);
        }
        if self.disk.enabled {
            return Some(ConfigFault::DiskSpill);
        }
        match &self.cluster_secret {
            Some(secret) => {
                let bytes: &[u8] = secret.as_str().as_bytes();
                if bytes.len() == 0 {
                    return Some(ConfigFault::ClusterSecret);
                }
            },
            None => {},
        }
        None
    }
}

/// A node that was told nothing can start.
pub proof fn law_default_is_valid()
    ensures
        default_config().valid(),
{
    reveal_strlit("trainpool");
    reveal_with_fuel(encode_utf8, 10);
    let name = "trainpool"@;
    assert(encode_utf8(name).len() == 9);
}

} // verus!
