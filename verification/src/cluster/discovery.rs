//! How a node makes itself known, and which announcements it believes.
use crate::address::{IpAddress, SocketAddress};
use crate::config::{text_view, Config, ConfigView};
use crate::error::Error;
use crate::ids::Uuid;
use crate::node::capabilities::{NodeCapabilities, NodeView};
use crate::protocol::VERSION;
use crate::text::same_text;
use crate::transport::udp::secret_view;
use crate::transport::{code_check, code_of, law_signature_verifies, verify};
use vstd::prelude::*;

verus! {

/// What a node says of itself to all that listen.
#[derive(Clone, Debug)]
pub struct Announcement {
    pub protocol_version: u32,
    pub trainpool_version: String,
    pub cluster_name: String,
    pub node_id: Uuid,
    pub hostname: String,
    pub os: String,
    pub architecture: String,
    pub control_address: IpAddress,
    pub control_port: u16,
    pub leader_election_score: u64,
    pub timestamp: u64,
}

/// The model of [`Announcement`].
pub struct AnnouncementView {
    pub protocol_version: u32,
    pub trainpool_version: Seq<char>,
    pub cluster_name: Seq<char>,
    pub node_id: Uuid,
    pub hostname: Seq<char>,
    pub os: Seq<char>,
    pub architecture: Seq<char>,
    pub control_address: IpAddress,
    pub control_port: u16,
    pub leader_election_score: u64,
    pub timestamp: u64,
}

impl View for Announcement {
    type V = AnnouncementView;

    open spec fn view(&self) -> AnnouncementView {
        AnnouncementView {
            protocol_version: self.protocol_version,
            trainpool_version: self.trainpool_version@,
            cluster_name: self.cluster_name@,
            node_id: self.node_id,
            hostname: self.hostname@,
            os: self.os@,
            architecture: self.architecture@,
            control_address: self.control_address,
            control_port: self.control_port,
            leader_election_score: self.leader_election_score,
            timestamp: self.timestamp,
        }
    }
}

/// What a node says of itself.
pub open spec fn announcement_of(node: NodeView, config: ConfigView, version: Seq<char>, now_ms: u64) -> AnnouncementView {
    AnnouncementView {
        protocol_version: VERSION,
        trainpool_version: version,
        cluster_name: config.cluster_name,
        node_id: node.node_id,
        hostname: node.hostname,
        os: node.os,
        architecture: node.architecture,
        control_address: node.network.control_address.host(),
        control_port: node.network.control_address.door(),
        leader_election_score: node.score(),
        timestamp: now_ms,
    }
}

/// How far apart two times are.
pub open spec fn distance(a: u64, b: u64) -> int {
    if a >= b {
        a - b
    } else {
        b - a
    }
}

/// The most milliseconds between an announcement and the local clock.
pub const FRESH_MILLIS: u64 = 30_000;

/// Why an announcement is not believed.
pub open spec fn announcement_refusal(
    a: AnnouncementView,
    payload: Seq<u8>,
    mac: Option<Seq<char>>,
    config: ConfigView,
    now_ms: u64,
) -> Option<Seq<char>> {
    if a.cluster_name != config.cluster_name {
        Some(Error::OtherCluster.text())
    } else if a.protocol_version != VERSION {
        Some(Error::DiscoveryVersion.text())
    } else if distance(now_ms, a.timestamp) > FRESH_MILLIS {
        Some(Error::DiscoveryStale.text())
    } else if code_check(config.cluster_secret, payload, mac) is Some {
        code_check(config.cluster_secret, payload, mac)
    } else if a.control_address.unspecified() || a.control_port == 0 {
        Some(Error::PeerAddress.text())
    } else {
        None
    }
}

impl Announcement {
    /// What a node says of itself; `version` is that of the program.
    pub fn new(node: &NodeCapabilities, config: &Config, version: &str, now_ms: u64) -> (r: Self)
        ensures
            r@ == announcement_of(node@, config@, version@, now_ms),
    {
        Announcement {
            protocol_version: VERSION,
            trainpool_version: version.to_owned(),
            cluster_name: config.cluster_name.clone(),
            node_id: node.node_id,
            hostname: node.hostname.clone(),
            os: node.os.clone(),
            architecture: node.architecture.clone(),
            control_address: node.network.control_address.ip(),
            control_port: node.network.control_address.port(),
            leader_election_score: node.election_score(),
            timestamp: now_ms,
        }
    }

    /// Whether to believe an announcement that came as `payload` with a code.
    pub fn accept(&self, payload: &[u8], mac: &Option<String>, config: &Config, now_ms: u64) -> (r: Result<(), Error>)
        ensures
            match r {
                Ok(_) => announcement_refusal(self@, payload@, text_view(*mac), config@, now_ms) is None,
                Err(e) => announcement_refusal(self@, payload@, text_view(*mac), config@, now_ms) == Some(e.text()),
            },
    {
        if !same_text(self.cluster_name.as_str(), config.cluster_name.as_str()) {
            return Err(Error::OtherCluster);
        }
        if self.protocol_version != VERSION {
            return Err(Error::DiscoveryVersion);
        }
        let age: u64 = if now_ms >= self.timestamp {
            now_ms - self.timestamp
        } else {
            self.timestamp - now_ms
        };
        if age > FRESH_MILLIS {
            return Err(Error::DiscoveryStale);
        }
        let secret: Option<&str> = match &config.cluster_secret {
            Some(s) => Some(s.as_str()),
            None => None,
        };
        let code: Option<&str> = match mac {
            Some(s) => Some(s.as_str()),
            None => None,
        };
        proof {
            assert(secret_view(secret) == config@.cluster_secret);
            assert(secret_view(code) == text_view(*mac));
        }
        verify(secret, payload, code)?;
        if self.control_address.is_unspecified() || self.control_port == 0 {
            return Err(Error::PeerAddress);
        }
        Ok(())
    }
}

/// What can be said of the address to advertise without asking the system.
#[derive(Clone, Copy, Debug, PartialEq, Eq, Structural)]
pub enum Advertised {
    Known { address: SocketAddress },
    /// The address of the interface that leads to this one, with the port.
    Towards { route: SocketAddress, port: u16 },
}

/// The address that others are told: the configured one, the one that the node
/// listens on, or that of the interface towards the first seed or the group.
pub open spec fn advertised(config: ConfigView) -> Advertised {
    if config.advertise_ip is Some {
        Advertised::Known {
            address: SocketAddress::V4 { ip: config.advertise_ip->0, port: config.listen.door() },
        }
    } else if !config.listen.host().unspecified() {
        Advertised::Known { address: config.listen }
    } else {
        Advertised::Towards {
            route: if config.seeds.len() > 0 {
                config.seeds[0]
            } else {
                SocketAddress::V4 { ip: config.multicast_group, port: config.discovery_port }
            },
            port: config.listen.door(),
        }
    }
}

/// The address that others are told, as far as it can be said here.
pub fn advertised_address(config: &Config) -> (r: Advertised)
    ensures
        r == advertised(config@),
{
    match config.advertise_ip {
        Some(ip) => {
            return Advertised::Known { address: SocketAddress::V4 { ip, port: config.listen.port() } };
        },
        None => {},
    }
    if !config.listen.ip().is_unspecified() {
        return Advertised::Known { address: config.listen };
    }
    let route: SocketAddress = if config.seeds.len() > 0 {
        config.seeds[0]
    } else {
        SocketAddress::V4 { ip: config.multicast_group, port: config.discovery_port }
    };
    Advertised::Towards { route, port: config.listen.port() }
}

/// A node believes what another of its cluster announced a moment ago, if its
/// address can be reached at all.
pub proof fn law_announcement_is_believed(
    node: NodeView,
    sender: ConfigView,
    receiver: ConfigView,
    version: Seq<char>,
    payload: Seq<u8>,
    sent_ms: u64,
    now_ms: u64,
)
    requires
        sender.cluster_name == receiver.cluster_name,
        sender.cluster_secret == receiver.cluster_secret,
        distance(now_ms, sent_ms) <= FRESH_MILLIS,
        !node.network.control_address.host().unspecified(),
        node.network.control_address.door() != 0,
    ensures
        announcement_refusal(
            announcement_of(node, sender, version, sent_ms),
            payload,
            code_of(sender.cluster_secret, payload),
            receiver,
            now_ms,
        ) is None,
{
    law_signature_verifies(sender.cluster_secret, payload);
}

} // verus!
