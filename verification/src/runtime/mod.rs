//! A node at work: its state, and what it decides on each event.
use crate::address::SocketAddress;
use crate::cluster::election::{leader_of, Leadership};
use crate::cluster::membership::{Membership, Peer, PeerView};
use crate::config::{Config, ConfigView};
use crate::error::Error;
use crate::ids::Uuid;
use crate::jobs::Jobs;
use crate::map::IdMap;
use crate::memory::allocator::{LedgerEntry, RamAccounting, Reservation};
use crate::memory::local_ram::LocalRam;
use crate::memory::residency::ResidencyTable;
use crate::metrics::Metrics;
use crate::node::capabilities::{NetworkView, NodeCapabilities, NodeView};
use crate::node::memory::{memory_for, MemoryCapabilities};
use crate::runtime::session::UdpServerState;
use crate::scheduler::topology::Topology;
use vstd::prelude::*;

pub mod blocks;
pub mod control;
pub mod data;
pub mod datagram;
pub mod dispatch;
pub mod monitor;
pub mod relief;
pub mod session;
pub mod status;
pub mod udp;

verus! {

/// RAM promised to an SDK for a while.
pub struct Staged {
    pub reservation: Reservation,
    pub deadline_ms: u64,
}

/// A node.
pub struct Runtime {
    pub config: Config,
    pub node_id: Uuid,
    pub membership: Membership,
    pub ram: LocalRam,
    pub residency: ResidencyTable,
    pub topology: Topology,
    pub jobs: Jobs,
    pub metrics: Metrics,
    pub staging: IdMap<Staged>,
    pub udp_server: UdpServerState,
    pub active_transfers: u32,
    /// A relief of memory pressure is under way.
    pub relieving: bool,
}

/// What the system says of its RAM: bytes that are free, and the parts of the
/// total that the node shares at most and keeps back at least.
#[derive(Clone, Copy, Debug, PartialEq, Eq, Structural)]
pub struct MemorySample {
    pub available: u64,
    pub ceiling: u64,
    pub reserve_share: u64,
}

/// A node whose RAM was looked at again.
pub open spec fn refreshed(n: NodeView, config: ConfigView, sample: MemorySample, owned: u64, active: u32) -> NodeView {
    NodeView {
        memory: memory_for(
            n.memory.physical_ram_total,
            sample.available,
            owned,
            sample.ceiling,
            config.ram_limit_bytes,
            config.ram_reserve_bytes,
            sample.reserve_share,
        ),
        network: NetworkView { active_transfers: active, ..n.network },
        ..n
    }
}

impl Runtime {
    /// Whether RAM promised to an SDK holds this reservation.
    pub open spec fn stages(&self, e: LedgerEntry) -> bool {
        exists|k: Uuid| #[trigger] self.staging@.contains_key(k) && self.staging@[k].reservation.entry() == e
    }

    /// Whether a part of the node holds this reservation.
    pub open spec fn owns(&self, e: LedgerEntry) -> bool {
        self.stages(e) || self.udp_server.owns(e) || self.ram.owns(e)
    }

    /// What is promised to SDKs is paid for, apart from all else.
    pub open spec fn staged(&self) -> bool {
        &&& self.staging.wf()
        &&& forall|k: Uuid| #[trigger]
            self.staging@.contains_key(k) ==> {
                &&& self.ram.accounting.holds(self.staging@[k].reservation.entry())
                &&& self.staging@[k].reservation.entry().job is None
                &&& !self.udp_server.owns(self.staging@[k].reservation.entry())
            }
        &&& forall|a: Uuid, b: Uuid| #[trigger]
            self.staging@.contains_key(a) && #[trigger] self.staging@.contains_key(b) && a != b
                ==> self.staging@[a].reservation.entry() != self.staging@[b].reservation.entry()
    }

    /// The chunks of every peer have a size that is worth sending.
    pub open spec fn peers_fit(&self) -> bool {
        forall|k: Uuid| #[trigger]
            self.membership@.contains_key(k) && k != self.node_id ==> 4096
                <= self.membership@[k].capabilities.network.chunk_bytes <= 67_108_864
    }

    /// Every part is whole, every committed block is intact, and all that is
    /// promised is paid for once.
    pub open spec fn wf(&self) -> bool {
        &&& self.config@.valid()
        &&& self.membership.wf()
        &&& self.membership.local_id == self.node_id
        &&& self.peers_fit()
        &&& self.ram.wf()
        &&& self.ram.intact()
        &&& self.residency.wf()
        &&& self.jobs.wf()
        &&& self.metrics.wf()
        &&& self.udp_server.wf()
        &&& self.udp_server.backed(self.ram.accounting)
        &&& self.staged()
    }

    /// The node itself.
    pub open spec fn me(&self) -> NodeView {
        self.membership@[self.node_id].capabilities
    }

    /// Who leads.
    pub open spec fn led(&self) -> Leadership {
        leader_of(self.membership.all())
    }

    /// Where a node is reached.
    pub open spec fn reached(&self, node: Uuid) -> Option<SocketAddress> {
        if self.membership@.contains_key(node) {
            Some(self.membership@[node].capabilities.network.control_address)
        } else {
            None
        }
    }

    /// A node that has just started.
    pub fn new(config: Config, local: NodeCapabilities, now_ns: u64) -> (r: Result<Self, Error>)
        ensures
            match r {
                Ok(node) => {
                    &&& config@.valid()
                    &&& node.wf()
                    &&& node.config == config
                    &&& node.node_id == local.node_id
                    &&& node.membership@ == Map::<Uuid, PeerView>::empty().insert(
                        local.node_id,
                        (PeerView { capabilities: local@, last_seen: now_ns }),
                    )
                    &&& node.ram@.dom() == Set::<Uuid>::empty()
                    &&& node.ram.lingering().len() == 0
                    &&& node.ram.accounting.owned == 0
                    &&& node.ram.accounting.peak == 0
                    &&& node.ram.accounting.jobs@.dom() == Set::<Uuid>::empty()
                    &&& node.ram.accounting.budget == local.memory.trainpool_ram_budget
                    &&& node.residency@.dom() == Set::<Uuid>::empty()
                    &&& node.topology@.len() == 0
                    &&& node.jobs@.dom() == Set::<Uuid>::empty()
                    &&& node.metrics@.dom() == Set::<Uuid>::empty()
                    &&& node.staging@.dom() == Set::<Uuid>::empty()
                    &&& node.udp_server.sessions().len() == 0
                    &&& node.udp_server.finishing@.len() == 0
                    &&& node.udp_server.completed@.len() == 0
                    &&& node.udp_server.active_reads == 0
                    &&& node.active_transfers == 0
                    &&& !node.relieving
                },
                Err(e) => config@.fault() is Some && e == (Error::Config { fault: config@.fault()->0 }),
            },
    {
        config.validate()?;
        let mut ram = LocalRam::new();
        let ghost empty = ram;
        ram.accounting.budget = local.memory.trainpool_ram_budget;
        proof {
            empty.lemma_rebudget(ram);
        }
        let node_id: Uuid = local.node_id;
        let r = Runtime {
            config,
            node_id,
            membership: Membership::new(local, now_ns),
            ram,
            residency: ResidencyTable::new(),
            topology: Topology::new(),
            jobs: Jobs::new(),
            metrics: Metrics::new(),
            staging: IdMap::new(),
            udp_server: UdpServerState::new(),
            active_transfers: 0,
            relieving: false,
        };
        proof {
            assert(r.ram@.dom() =~= Set::<Uuid>::empty());
            assert(r.residency@.dom() =~= Set::<Uuid>::empty());
            assert(r.jobs@.dom() =~= Set::<Uuid>::empty());
            assert(r.metrics@.dom() =~= Set::<Uuid>::empty());
            assert(r.staging@.dom() =~= Set::<Uuid>::empty());
        }
        Ok(r)
    }

    pub(crate) fn my_place(&self) -> (r: usize)
        requires
            self.wf(),
        ensures
            r < self.membership.peers.keys().len(),
            self.membership.peers.keys()[r as int] == self.node_id,
    {
        match self.membership.peers.find(self.node_id) {
            Some(p) => p,
            None => {
                assert(self.membership@.contains_key(self.node_id));
                assert(false);
                0
            },
        }
    }

    /// The node itself.
    pub fn local(&self) -> (r: NodeCapabilities)
        requires
            self.wf(),
        ensures
            r@ == self.me(),
    {
        let p: usize = self.my_place();
        let peer: &Peer = self.membership.peers.value_at(p);
        proof {
            assert(self.membership@[self.node_id] == peer@);
        }
        peer.capabilities.duplicate()
    }

    /// Who leads.
    pub fn leadership(&self) -> (r: Leadership)
        requires
            self.wf(),
        ensures
            r == self.led(),
    {
        self.membership.leader()
    }

    /// Where a node is reached.
    pub fn address(&self, node: Uuid) -> (r: Result<SocketAddress, Error>)
        requires
            self.wf(),
        ensures
            r == match self.reached(node) {
                Some(a) => Ok(a),
                None => Err(Error::NodeUnavailable { node }),
            },
    {
        match self.membership.peers.get(node) {
            Some(peer) => {
                proof {
                    assert(self.membership@[node] == peer@);
                }
                Ok(peer.capabilities.network.control_address)
            },
            None => {
                proof {
                    assert(!self.membership@.contains_key(node));
                }
                Err(Error::NodeUnavailable { node })
            },
        }
    }

    /// Where the leader is reached.
    pub fn leader_address(&self) -> (r: Result<SocketAddress, Error>)
        requires
            self.wf(),
        ensures
            r == match self.led().leader_id {
                None => Err(Error::NoLeader),
                Some(id) => match self.reached(id) {
                    Some(a) => Ok(a),
                    None => Err(Error::NodeUnavailable { node: id }),
                },
            },
    {
        match self.leadership().leader_id {
            Some(id) => self.address(id),
            None => Err(Error::NoLeader),
        }
    }

    /// Whether the leadership is still the expected one.
    pub fn validate_leadership(&self, expected: &Leadership) -> (r: Result<(), Error>)
        requires
            self.wf(),
        ensures
            r == if self.led() == *expected {
                Ok(())
            } else {
                Err(Error::LeadershipChanged)
            },
    {
        if self.leadership() == *expected {
            Ok(())
        } else {
            Err(Error::LeadershipChanged)
        }
    }

    /// The node after its RAM was looked at again.
    pub open spec fn looked(self, z: Runtime, sample: MemorySample) -> bool {
        let me = refreshed(self.me(), self.config@, sample, self.ram.accounting.owned, self.active_transfers);
        &&& z == (Runtime { membership: z.membership, ram: z.ram, ..self })
        &&& z.membership.local_id == self.membership.local_id
        &&& z.membership.peers.keys() == self.membership.peers.keys()
        &&& z.membership@ == self.membership@.insert(
            self.node_id,
            PeerView { capabilities: me, ..self.membership@[self.node_id] },
        )
        &&& z.ram == (LocalRam {
            accounting: RamAccounting { budget: me.memory.trainpool_ram_budget, ..self.ram.accounting },
            ..self.ram
        })
    }

    /// Looks at the RAM again: what others are told of it, and the budget.
    pub fn refresh_memory(&mut self, sample: MemorySample)
        requires
            old(self).wf(),
        ensures
            final(self).wf(),
            old(self).looked(*final(self), sample),
    {
        let ghost before = *self;
        let owned: u64 = self.ram.accounting.used();
        let active: u32 = self.active_transfers;
        let p: usize = self.my_place();
        let limit: Option<u64> = self.config.ram_limit_bytes;
        let reserve: u64 = self.config.ram_reserve_bytes;
        let peer: &mut Peer = self.membership.peers.value_mut(p);
        let total: u64 = peer.capabilities.memory.physical_ram_total;
        let memory: MemoryCapabilities = MemoryCapabilities::calculate(
            total,
            sample.available,
            owned,
            sample.ceiling,
            limit,
            reserve,
            sample.reserve_share,
        );
        peer.capabilities.memory = memory;
        peer.capabilities.network.active_transfers = active;
        self.ram.accounting.budget = memory.trainpool_ram_budget;
        proof {
            let me = refreshed(before.me(), before.config@, sample, owned, active);
            assert(before.membership@[before.node_id] == before.membership.peers@[before.node_id]@);
            assert(self.membership@ =~= before.membership@.insert(
                before.node_id,
                PeerView { capabilities: me, ..before.membership@[before.node_id] },
            ));
            before.ram.lemma_rebudget(self.ram);
            assert(self.udp_server.backed(self.ram.accounting)) by {
                assert forall|i: int| 0 <= i < self.udp_server.sessions().len() implies self.ram.accounting.holds(
                    (#[trigger] self.udp_server.sessions()[i]).1.entry,
                ) by {
                    assert(before.ram.accounting.holds(before.udp_server.sessions()[i].1.entry));
                }
            }
            assert forall|k: Uuid| #[trigger] self.staging@.contains_key(k) implies self.ram.accounting.holds(
                self.staging@[k].reservation.entry(),
            ) by {
                assert(before.ram.accounting.holds(before.staging@[k].reservation.entry()));
            }
        }
    }
}

impl Runtime {
    /// A change of the store that leaves all other promises alone leaves the
    /// node whole.
    pub proof fn lemma_ram_changed(self, after: Self)
        requires
            self.wf(),
            after == (Runtime { ram: after.ram, ..self }),
            after.ram.wf(),
            after.ram.intact(),
            forall|e: LedgerEntry|
                e.job is None && self.ram.accounting.holds(e) ==> after.ram.accounting.holds(e),
        ensures
            after.wf(),
    {
        assert forall|i: int| 0 <= i < after.udp_server.sessions().len() implies after.ram.accounting.holds(
            (#[trigger] after.udp_server.sessions()[i]).1.entry,
        ) by {
            assert(self.udp_server.sessions()[i].1.wf());
            assert(self.ram.accounting.holds(self.udp_server.sessions()[i].1.entry));
        }
        assert forall|k: Uuid| #[trigger] after.staging@.contains_key(k) implies after.ram.accounting.holds(
            after.staging@[k].reservation.entry(),
        ) by {
            assert(self.ram.accounting.holds(self.staging@[k].reservation.entry()));
        }
    }
}

} // verus!
