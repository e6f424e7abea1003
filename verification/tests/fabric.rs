use trainpool::address::{SocketAddress, LOCALHOST};
use trainpool::config::Config;
use trainpool::double::Double;
use trainpool::error::Error;
use trainpool::memory::block::{BlockState, MemoryBlockHandle};
use trainpool::memory::migration::{Outcome, Step};
use trainpool::memory::remote_ram::{check_chunk, chunk_checksum, read_request, write_request, ChunkMetadata};
use trainpool::metrics::JobMetrics;
use trainpool::node::capabilities::{Found, NodeCapabilities};
use trainpool::protocol::request::Request;
use trainpool::protocol::{frame_size, Response};
use trainpool::runtime::relief::{ReliefEvent, ReliefStep};
use trainpool::runtime::control::{ControlStep, Reply, Routed};
use trainpool::runtime::data::{DataPath, Relay};
use trainpool::runtime::datagram::Outcome as Datagram;
use trainpool::runtime::dispatch::Moment;
use trainpool::runtime::{MemorySample, Runtime};
use trainpool::scheduler::planner::TrainingPlan;
use trainpool::transport::reader::{request_packet, Reader, Taken};
use trainpool::transport::sender::{Estimate, SendPayload, Times};
use trainpool::transport::transmission::{Transmission, Turn};
use trainpool::transport::udp::{bitmap_payload, Kind, Packet, TransferStats};
use trainpool::transport::{client_answer, server_auth};

const SECRET: Option<&str> = Some("integration secret");
const GIB: u64 = 1024 * 1024 * 1024;
const NOW: u64 = 1_000_000;

fn d(x: f64) -> Double {
    Double { bits: x.to_bits() }
}

fn sample() -> MemorySample {
    MemorySample { available: 48 * GIB, ceiling: 57 * GIB, reserve_share: 6 * GIB }
}

fn moment() -> Moment {
    Moment { now_ms: NOW, now_ns: NOW * 1_000_000, sample: sample(), waited: d(0.0) }
}

fn endpoint(id: u128) -> SocketAddress {
    SocketAddress::V4 { ip: LOCALHOST, port: 7000 + id as u16 }
}

fn start_with(id: u128, limit: u64, sessions: usize, transport: &str) -> Runtime {
    let mut config = Config::default();
    config.listen = endpoint(id);
    config.discovery_enabled = false;
    config.ram_limit_bytes = Some(limit);
    config.chunk_bytes = 4096;
    config.cluster_secret = Some("integration secret".to_string());
    config.udp_max_sessions = sessions;
    config.data_transport = transport.to_string();
    let found = Found {
        hostname: Some(format!("node-{id}")),
        os: "mock".to_string(),
        architecture: "x86_64".to_string(),
        cpu_model: None,
        physical_cores: None,
        logical_cores: 4,
        total_ram: 64 * GIB,
        gpus: vec![],
        version: "test".to_string(),
    };
    let node = NodeCapabilities::detect(id, endpoint(id), &config, found, id + 100, id + 1000, sample());
    Runtime::new(config, node, 0).unwrap()
}

/// Nodes that reach each other at once.
struct Net {
    nodes: Vec<Runtime>,
    serial: u128,
}

impl Net {
    fn new(nodes: Vec<Runtime>) -> Net {
        Net { nodes, serial: 1 << 64 }
    }

    fn fresh(&mut self) -> u128 {
        self.serial += 1;
        self.serial
    }

    fn at(&mut self, address: SocketAddress) -> &mut Runtime {
        self.nodes.iter_mut().find(|r| r.config.listen == address).expect("a node listens there")
    }

    fn meet(&mut self) {
        for i in 0..self.nodes.len() {
            for j in 0..self.nodes.len() {
                if i != j {
                    let node = self.nodes[j].local();
                    let inventory = self.nodes[j].ram.inventory_page(0);
                    let token = self.fresh();
                    self.nodes[i].accept_peer(node, inventory, token, 0).unwrap();
                }
            }
        }
    }

    fn ask(&mut self, address: SocketAddress, request: Request) -> Result<Reply, Error> {
        let runtime = self.at(address);
        let costs = runtime.membership.nodes().iter().map(|_| d(1.0)).collect();
        match runtime.control(request, moment(), &costs)? {
            ControlStep::Reply { reply } => Ok(reply),
            ControlStep::Forward { request } => {
                let leader = runtime.leader_address()?;
                self.ask(leader, request)
            }
            ControlStep::Register { request, reply } => {
                let leader = runtime.leader_address()?;
                self.ask(leader, request)?;
                Ok(reply)
            }
            ControlStep::Resolve { handle, routed } => {
                let free = matches!(routed, Routed::Free);
                let known = self.resolve(address, &handle)?;
                let (owner, request) = self.at(address).route(known.duplicate(), routed)?;
                let reply = self.ask(owner, request);
                if free {
                    if let Some(told) = self.at(address).after_free(known, reply.is_ok()) {
                        let leader = self.at(address).leader_address()?;
                        self.ask(leader, told)?;
                    }
                }
                reply
            }
            ControlStep::Allocate { mut allocation } => loop {
                let (id, token) = (self.fresh(), self.fresh());
                let (owner, handle) = self.at(address).allocation_next(&allocation, id, token, NOW)?;
                let leadership = allocation.leadership;
                let asked = self.ask(owner, Request::AllocateLocal { handle: handle.duplicate(), leadership });
                let (handle, refusal) = match asked {
                    Ok(Reply::Handle { handle }) => (handle, None),
                    Ok(_) => panic!("a handle was expected"),
                    Err(e) => (handle, Some(e.message())),
                };
                if let Some(handle) = self.at(address).allocation_answered(&mut allocation, handle, refusal) {
                    return Ok(Reply::Handle { handle });
                }
            },
            ControlStep::Relieve { source, excess } => {
                let moved = self.relieve(address, source, excess)?;
                Ok(Runtime::relieved(excess, moved))
            }
            ControlStep::Migrate { mut migration } => {
                let mut step = runtime.migration_opening(&migration);
                loop {
                    let outcome = match step {
                        Step::Ask { address: at, request } => match self.ask(at, request) {
                            Ok(Reply::Handle { handle }) if migration.stage == trainpool::memory::migration::Stage::Commit => {
                                Outcome::Committed { handle }
                            }
                            Ok(_) => Outcome::Accepted,
                            Err(e) => Outcome::Refused { reason: e.message() },
                        },
                        Step::Write { address: at, udp, offset, payload } => {
                            let target = migration.target.duplicate();
                            let sent = if udp {
                                self.udp_write(address, at, &target, 31, offset, payload).map(|_| ())
                            } else {
                                self.write_chunk(at, &target, 31, offset, &payload)
                            };
                            match sent {
                                Ok(_) => Outcome::Accepted,
                                Err(e) => Outcome::Refused { reason: e.message() },
                            }
                        }
                        Step::Tell { request } => {
                            let leader = self.at(address).leader_address()?;
                            match self.ask(leader, request) {
                                Ok(_) => Outcome::Accepted,
                                Err(e) => Outcome::Refused { reason: e.message() },
                            }
                        }
                        Step::Moved { handle } => return Ok(Reply::Handle { handle }),
                        Step::Stayed { reason } => return Err(Error::Told { text: reason }),
                    };
                    step = self.at(address).migration_step(&mut migration, outcome, d(1.0), d(2.0));
                }
            }
            ControlStep::Benchmark { .. } | ControlStep::Measure { .. } => panic!("nothing is measured here"),
        }
    }

    fn relieve(&mut self, leader: SocketAddress, source: u128, excess: u64) -> Result<u64, Error> {
        let mut relief = match self.at(leader).begin_relief(source, excess, NOW) {
            Some(relief) => relief,
            None => return Ok(0),
        };
        let mut event = ReliefEvent::Begun;
        let moved = loop {
            event = match self.at(leader).relief_step(&mut relief, event)? {
                ReliefStep::Price { .. } => {
                    let costs = self.at(leader).relief_nodes(source).iter().map(|_| d(1.0)).collect();
                    ReliefEvent::Priced { costs }
                }
                ReliefStep::Ask { address, request } => {
                    ReliefEvent::Answered { moved: self.ask(address, request).is_ok() }
                }
                ReliefStep::Over { moved } => break moved,
            };
        };
        self.at(leader).end_relief();
        Ok(moved)
    }

    fn resolve(&mut self, address: SocketAddress, handle: &MemoryBlockHandle) -> Result<MemoryBlockHandle, Error> {
        let leader = self.at(address).leader_address()?;
        match self.ask(leader, Request::Resolve { id: handle.id, lease_token: handle.lease_token })? {
            Reply::Handle { handle } => Ok(handle),
            _ => panic!("a handle was expected"),
        }
    }

    fn plan(&mut self, address: SocketAddress) -> TrainingPlan {
        match self.ask(address, Request::Plan { stages: vec![] }).unwrap() {
            Reply::Plan { plan } => plan,
            _ => panic!("a plan was expected"),
        }
    }

    fn allocate(&mut self, address: SocketAddress, size: u64, job_id: u128, preferred: Option<u128>) -> Result<MemoryBlockHandle, Error> {
        let compute_node = self.at(address).node_id;
        match self.ask(address, Request::Allocate { size, job_id, compute_node, preferred_node: preferred, tensor: None })? {
            Reply::Handle { handle } => Ok(handle),
            _ => panic!("a handle was expected"),
        }
    }

    fn commit(&mut self, address: SocketAddress, handle: MemoryBlockHandle, bytes: &[u8], direct: bool) -> Result<MemoryBlockHandle, Error> {
        let checksum = blake3::hash(bytes).to_hex().to_string();
        match self.ask(address, Request::Commit { handle, checksum, direct })? {
            Reply::Handle { handle } => Ok(handle),
            _ => panic!("a handle was expected"),
        }
    }

    /// A chunk to the owner of a block over TCP.
    fn write_chunk(&mut self, address: SocketAddress, handle: &MemoryBlockHandle, transfer: u128, offset: u64, payload: &[u8]) -> Result<(), Error> {
        let request = write_request(handle, transfer, offset, payload);
        let runtime = self.at(address);
        assert!(matches!(runtime.data_path(&request)?, DataPath::Write));
        match request {
            Request::WriteChunk { handle, transfer_id, offset, total_size, checksum, .. } => {
                runtime.begin_chunk(&handle, transfer_id, offset, total_size, NOW)?;
                runtime.finish_chunk(handle.id, handle.job_id, transfer_id, payload, &checksum)
            }
            _ => panic!("a chunk was expected"),
        }
    }

    fn read_chunk(&mut self, address: SocketAddress, handle: &MemoryBlockHandle, offset: u64, length: usize) -> Result<Vec<u8>, Error> {
        let request = read_request(handle, 8, offset, length);
        let runtime = self.at(address);
        assert!(matches!(runtime.data_path(&request)?, DataPath::Read));
        let bytes = runtime.ram.read(handle, offset, length, NOW)?;
        let metadata = ChunkMetadata::new(8, handle.id, offset, &bytes, handle.size);
        check_chunk(&bytes, &Some(metadata.checksum))?;
        Ok(bytes)
    }

    /// A chunk through a node to the owner of a block.
    fn routed_write(&mut self, address: SocketAddress, handle: &MemoryBlockHandle, transfer: u128, offset: u64, payload: &[u8]) -> Result<(), Error> {
        let request = Request::WriteChunk {
            handle: handle.duplicate(),
            transfer_id: transfer,
            offset,
            length: payload.len(),
            total_size: handle.size,
            checksum: chunk_checksum(payload),
            direct: false,
        };
        assert!(matches!(self.at(address).data_path(&request)?, DataPath::WriteThrough));
        let known = self.resolve(address, handle)?;
        let held = self.at(address).begin_relay(payload.len())?;
        let way = self.at(address).relay_write(&known, transfer, offset, payload, &chunk_checksum(payload), NOW)?;
        match way {
            Relay::Here => {}
            Relay::Udp { address: owner } => {
                self.at(address).metrics.open_session(known.job_id);
                let stats = self.udp_write(address, owner, &known, transfer, offset, payload.to_vec())?;
                self.at(address).metrics.close_session(known.job_id, Some(stats));
                self.at(address).metrics.count_relay(known.job_id, payload.len(), true, d(1.0));
            }
            Relay::Tcp { address: owner } => {
                self.connect(address, known.job_id);
                self.write_chunk(owner, &known, transfer, offset, payload)?;
                self.at(address).metrics.count_relay(known.job_id, payload.len(), true, d(1.0));
            }
        }
        self.at(address).end_relay(held);
        Ok(())
    }

    fn connect(&mut self, address: SocketAddress, job: u128) {
        let opened = self.at(address).metrics.job(job).tcp_connections_opened;
        self.at(address).metrics.count_connection(job, opened > 0);
    }

    fn routed_read(&mut self, address: SocketAddress, handle: &MemoryBlockHandle, offset: u64, length: usize) -> Result<Vec<u8>, Error> {
        let known = self.resolve(address, handle)?;
        let held = self.at(address).begin_relay(length)?;
        let (way, bytes) = self.at(address).relay_read(&known, offset, length, NOW)?;
        let bytes = match way {
            Relay::Here => bytes,
            Relay::Udp { address: owner } => {
                self.at(address).metrics.open_session(known.job_id);
                let (bytes, stats) = self.udp_read(address, owner, &known, offset, length)?;
                self.at(address).metrics.close_session(known.job_id, Some(stats));
                self.at(address).metrics.count_relay(known.job_id, length, false, d(1.0));
                bytes
            }
            Relay::Tcp { address: owner } => {
                self.connect(address, known.job_id);
                let bytes = self.read_chunk(owner, &known, offset, length)?;
                self.at(address).metrics.count_relay(known.job_id, length, false, d(1.0));
                bytes
            }
        };
        self.at(address).end_relay(held);
        Ok(bytes)
    }

    /// One datagram to a node, and its answer.
    fn datagram(&mut self, source: SocketAddress, address: SocketAddress, packet: &Packet) -> Option<Packet> {
        let wire = packet.encode(SECRET).unwrap();
        let packet = Packet::decode(&wire, SECRET).unwrap();
        let runtime = self.at(address);
        match runtime.udp_datagram(&packet, source, NOW, NOW * 1_000_000) {
            Datagram::Silent => None,
            Datagram::Reply { wire, counted, .. } => {
                runtime.metrics.count_reply(packet.object_id, counted);
                Some(Packet::decode(&wire, SECRET).unwrap())
            }
            Datagram::Finalize(chunk) => {
                assert!(runtime.chunk_fits(&chunk, NOW));
                Some(runtime.udp_finish(chunk, NOW, NOW * 1_000_000).unwrap())
            }
            Datagram::Serve(_) => panic!("a read is asked for elsewhere"),
        }
    }

    fn udp_write(&mut self, from: SocketAddress, to: SocketAddress, handle: &MemoryBlockHandle, transfer: u128, offset: u64, payload: Vec<u8>) -> Result<TransferStats, Error> {
        let config = self.at(from).config.clone();
        let request = SendPayload { handle: handle.duplicate(), transfer_id: transfer, offset, payload, read_response: false };
        let mut t = Transmission::begin(request, &config)?;
        transmit(&mut t, &mut |p| self.datagram(from, to, p))
    }

    fn udp_read(&mut self, from: SocketAddress, to: SocketAddress, handle: &MemoryBlockHandle, offset: u64, length: usize) -> Result<(Vec<u8>, TransferStats), Error> {
        let config = self.at(from).config.clone();
        let request = request_packet(handle, 5, offset, length, &config)?;
        let job = match self.at(to).udp_datagram(&request, from, NOW, NOW * 1_000_000) {
            Datagram::Serve(job) => job,
            Datagram::Reply { wire, .. } => {
                let refusal = Packet::decode(&wire, SECRET).unwrap();
                return Err(Error::Told { text: String::from_utf8(refusal.payload).unwrap() });
            }
            _ => panic!("a chunk or a refusal was expected"),
        };
        let object = job.handle.job_id;
        let request = SendPayload {
            handle: job.handle,
            transfer_id: job.transfer_id,
            offset: job.offset,
            payload: job.payload,
            read_response: true,
        };
        let mut t = Transmission::begin(request, &config)?;
        let mut reader: Option<Reader> = None;
        let sent = transmit(&mut t, &mut |p| {
            let mut reader_now = reader.take();
            let reply = match &mut reader_now {
                None => {
                    assert_eq!(p.kind, Kind::Start);
                    let (r, ack) = Reader::begin(handle.duplicate(), p, &config).unwrap();
                    reader_now = Some(r);
                    Some(ack)
                }
                Some(r) => match r.take(p, d(3.0)).unwrap() {
                    Taken::Silent => None,
                    Taken::Reply { packet } => Some(packet),
                    Taken::Complete { packet } => Some(packet),
                },
            };
            reader = reader_now;
            reply
        })?;
        self.at(to).udp_served(object, Some(sent));
        let reader = reader.unwrap();
        Ok((reader.buffer, reader.stats))
    }

    fn job(&mut self, address: SocketAddress, job: u128) -> &mut JobMetrics {
        self.at(address).metrics.job(job)
    }
}

fn transmit(t: &mut Transmission, receiver: &mut dyn FnMut(&Packet) -> Option<Packet>) -> Result<TransferStats, Error> {
    let sample = Estimate { rto_ns: 10_000_000, rtt_ms: d(1.0) };
    let times = Times { rto_ms: d(10.0), rtt_ms: d(1.0), elapsed_ms: d(2.0) };
    let mut waiting: Vec<Packet> = vec![];
    loop {
        match t.turn() {
            Turn::Ask { packet } => {
                waiting.clear();
                waiting.extend(receiver(&packet));
                if waiting.is_empty() {
                    t.quiet()?;
                } else {
                    t.heard(&waiting.remove(0), sample, times)?;
                }
            }
            Turn::Tell { packet, .. } => waiting.extend(receiver(&packet)),
            Turn::Listen { .. } => {
                if waiting.is_empty() {
                    t.quiet()?;
                } else {
                    t.heard(&waiting.remove(0), sample, times)?;
                }
            }
            Turn::Done => return Ok(t.sender.stats),
        }
    }
}

#[test]
fn remote_payload_uses_reliable_udp_while_local_owner_uses_fast_path() {
    // 270 KB admit the later 4 KiB local allocation with its headroom, but not
    // the 16 KB object, which goes to the other node.
    let (a, b) = (endpoint(1), endpoint(2));
    let mut net = Net::new(vec![start_with(1, 270_000, 128, "udp"), start_with(2, 32 * 1024 * 1024, 128, "udp")]);
    net.meet();
    let plan = net.plan(a);
    let payload: Vec<u8> = (0..16_000).map(|index| (index % 251) as u8).collect();
    let remote = net.allocate(a, payload.len() as u64, plan.job_id, Some(2)).unwrap();
    assert_eq!(remote.owner_node, 2);
    for (index, chunk) in payload.chunks(4096).enumerate() {
        net.routed_write(a, &remote, 500, (index * 4096) as u64, chunk).unwrap();
    }
    let committed = net.commit(a, remote, &payload, false).unwrap();
    let mut restored = vec![];
    for offset in (0..payload.len()).step_by(4096) {
        restored.extend(net.routed_read(a, &committed, offset as u64, 4096.min(payload.len() - offset)).unwrap());
    }
    assert_eq!(restored, payload);
    let job = net.job(a, plan.job_id);
    assert!(job.udp_datagrams_sent > 0);
    assert!(job.udp_datagrams_received > 0);
    assert!(job.udp_payload_bytes >= payload.len() as u64 * 2);
    assert_eq!(job.tcp_connections_opened, 0);
    let local = net.allocate(a, 4096, plan.job_id, Some(1)).unwrap();
    let before = net.job(a, plan.job_id).udp_datagrams_sent;
    net.routed_write(a, &local, 501, 0, &[3; 4096]).unwrap();
    let after = net.job(a, plan.job_id).udp_datagrams_sent;
    assert_eq!(before, after, "local owner must not use daemon-to-daemon UDP");
    assert_eq!(net.job(b, plan.job_id).active_transfer_sessions, 0);
}

#[test]
fn tcp_reference_reuses_authenticated_data_connection() {
    let a = endpoint(1);
    let mut net = Net::new(vec![start_with(1, 270_000, 128, "tcp"), start_with(2, 32 * 1024 * 1024, 128, "tcp")]);
    net.meet();
    let plan = net.plan(a);
    let payload = vec![31_u8; 16_000];
    let handle = net.allocate(a, payload.len() as u64, plan.job_id, Some(2)).unwrap();
    assert_eq!(handle.owner_node, 2);
    for (index, chunk) in payload.chunks(4096).enumerate() {
        net.routed_write(a, &handle, 500, (index * 4096) as u64, chunk).unwrap();
    }
    let committed = net.commit(a, handle, &payload, false).unwrap();
    let mut restored = vec![];
    for offset in (0..payload.len()).step_by(4096) {
        restored.extend(net.routed_read(a, &committed, offset as u64, 4096.min(payload.len() - offset)).unwrap());
    }
    assert_eq!(restored, payload);
    let metrics = net.job(a, plan.job_id);
    assert_eq!(metrics.tcp_connections_opened, 1);
    assert!(metrics.tcp_connections_reused >= 7);
    assert_eq!(metrics.udp_payload_bytes, 0);
}

fn udp_start(handle: &MemoryBlockHandle, transfer: u128, payload: &[u8]) -> Packet {
    let mut packet = Packet::for_handle(Kind::Start, handle, transfer);
    packet.sequence_id = payload.len().div_ceil(1200) as u32;
    packet.payload = (payload.len() as u64).to_be_bytes().to_vec();
    packet.payload.extend_from_slice(blake3::hash(payload).as_bytes());
    packet
}

#[test]
fn udp_receiver_reconstructs_reorder_rejects_stale_and_applies_backpressure() {
    let (address, source) = (endpoint(1), endpoint(9));
    let mut net = Net::new(vec![start_with(1, 32 * 1024 * 1024, 1, "udp")]);
    let plan = net.plan(address);
    let handle = net.allocate(address, 4096, plan.job_id, None).unwrap();
    let payload: Vec<u8> = (0..4096).map(|index| (index % 251) as u8).collect();
    let transfer = 600;
    let mut kind = |net: &mut Net, p: &Packet| net.datagram(source, address, p).map(|r| r.kind);
    assert_eq!(kind(&mut net, &udp_start(&handle, transfer, &payload)), Some(Kind::StartAck));
    let data = |sequence: usize| {
        let begin = sequence * 1200;
        let end = (begin + 1200).min(payload.len());
        let mut packet = Packet::for_handle(Kind::Data, &handle, transfer);
        packet.sequence_id = sequence as u32;
        packet.offset = begin as u64;
        packet.payload = payload[begin..end].to_vec();
        packet
    };
    // Sequence 1 comes before 0, then 0 comes twice.
    assert_eq!(kind(&mut net, &data(1)), None);
    assert_eq!(kind(&mut net, &data(0)), Some(Kind::Ack));
    assert_eq!(kind(&mut net, &data(0)), Some(Kind::Ack));
    assert_eq!(kind(&mut net, &data(2)), None);
    assert_eq!(kind(&mut net, &data(3)), Some(Kind::Ack));
    let mut fin = Packet::for_handle(Kind::Fin, &handle, transfer);
    fin.sequence_id = 4;
    fin.payload = blake3::hash(&payload).as_bytes().to_vec();
    assert_eq!(kind(&mut net, &fin), Some(Kind::Complete));
    assert_eq!(kind(&mut net, &data(0)), Some(Kind::Ack), "late retransmission after FIN must be idempotent");
    assert_eq!(kind(&mut net, &fin), Some(Kind::Complete));
    let committed = net.commit(address, handle.duplicate(), &payload, false).unwrap();
    assert_eq!(net.routed_read(address, &committed, 0, payload.len()).unwrap(), payload);

    let mut stale = Packet::for_handle(Kind::Data, &committed, 601);
    stale.payload = vec![1];
    assert_eq!(kind(&mut net, &stale), Some(Kind::Error));

    let second = net.allocate(address, 4096, plan.job_id, None).unwrap();
    let third = net.allocate(address, 4096, plan.job_id, None).unwrap();
    let second_transfer = 602;
    assert_eq!(kind(&mut net, &udp_start(&second, second_transfer, &[2; 4096])), Some(Kind::StartAck));
    let mut incomplete_fin = Packet::for_handle(Kind::Fin, &second, second_transfer);
    incomplete_fin.payload = blake3::hash(&[2; 4096]).as_bytes().to_vec();
    assert_eq!(kind(&mut net, &incomplete_fin), Some(Kind::Nack));
    let third_transfer = 603;
    let backpressure = net.datagram(source, address, &udp_start(&third, third_transfer, &[3; 4096])).unwrap();
    assert_eq!(backpressure.kind, Kind::Error);
    assert!(String::from_utf8_lossy(&backpressure.payload).contains("BACKPRESSURE"));
    assert_eq!(kind(&mut net, &Packet::for_handle(Kind::Abort, &second, second_transfer)), None);
    assert_eq!(kind(&mut net, &udp_start(&third, third_transfer, &[3; 4096])), Some(Kind::StartAck));
    assert_eq!(kind(&mut net, &Packet::for_handle(Kind::Abort, &third, third_transfer)), None);
    let metrics = net.job(address, plan.job_id);
    assert!(metrics.out_of_order_datagrams >= 1);
    assert!(metrics.duplicate_datagrams >= 1);
    assert!(metrics.nack_count >= 1);
    assert_eq!(metrics.active_transfer_sessions, 0);
}

#[test]
fn packets_of_a_session_do_not_wait_for_what_holds_the_block() {
    let (address, source) = (endpoint(1), endpoint(9));
    let mut net = Net::new(vec![start_with(1, 32 * 1024 * 1024, 8, "udp")]);
    let plan = net.plan(address);
    let handle = net.allocate(address, 8192, plan.job_id, None).unwrap();
    let bytes: Vec<u8> = (0..8192).map(|index| (index % 241) as u8).collect();
    let data = |transfer: u128, offset: usize, sequence: usize| {
        let begin = sequence * 1200;
        let mut packet = Packet::for_handle(Kind::Data, &handle, transfer);
        packet.sequence_id = sequence as u32;
        packet.offset = (offset + begin) as u64;
        packet.payload = bytes[offset + begin..offset + (begin + 1200).min(4096)].to_vec();
        packet
    };
    let fin = |transfer: u128, offset: usize| {
        let mut packet = Packet::for_handle(Kind::Fin, &handle, transfer);
        packet.sequence_id = 4;
        packet.offset = offset as u64;
        packet.payload = blake3::hash(&bytes[offset..offset + 4096]).as_bytes().to_vec();
        packet
    };
    assert_eq!(net.datagram(source, address, &udp_start(&handle, 900, &bytes[..4096])).unwrap().kind, Kind::StartAck);
    for sequence in 0..4 {
        net.datagram(source, address, &data(900, 0, sequence));
    }
    assert_eq!(net.datagram(source, address, &fin(900, 0)).unwrap().kind, Kind::Complete);
    let mut second = udp_start(&handle, 901, &bytes[4096..]);
    second.offset = 4096;
    assert_eq!(net.datagram(source, address, &second).unwrap().kind, Kind::StartAck);

    // A transfer over TCP has the block now.
    net.at(address).begin_chunk(&handle, 900, 4096, 8192, NOW).unwrap();
    assert!(net.at(address).ram.get(handle.id).unwrap().busy);
    let late = net.datagram(source, address, &data(900, 0, 2)).unwrap();
    assert_eq!(late.kind, Kind::Ack);
    assert_eq!(late.payload, bitmap_payload(0, &[true; 256], 64));
    assert_eq!(net.datagram(source, address, &fin(900, 0)).unwrap().kind, Kind::Complete);
    assert!(net.datagram(source, address, &data(901, 4096, 1)).is_none());
    let missing = net.datagram(source, address, &fin(901, 4096)).unwrap();
    assert_eq!(missing.kind, Kind::Nack);
    let bits: Vec<bool> = (0..256).map(|i| i == 0 || i == 2 || i == 3).collect();
    assert_eq!(missing.payload, bitmap_payload(0, &bits, 64));
    assert!(net.datagram(source, address, &Packet::for_handle(Kind::Abort, &handle, 901)).is_none());
    assert!(net.at(address).ram.get(handle.id).unwrap().busy);
    assert_eq!(net.at(address).ram.get(handle.id).unwrap().written, 4096);
    net.at(address).drop_chunk(handle.id);
}

#[test]
fn direct_transfer_migration_checksums_and_cpu_only_memory() {
    for transport in ["udp", "tcp"] {
        let (a, b, c) = (endpoint(1), endpoint(2), endpoint(3));
        let mut net = Net::new(vec![
            start_with(1, 32 * 1024 * 1024, 128, transport),
            start_with(2, 32 * 1024 * 1024, 128, transport),
            start_with(3, 65536, 128, transport),
        ]);
        net.meet();
        let leader = net.at(a).leadership().leader_id.unwrap();
        for address in [a, b, c] {
            assert_eq!(net.at(address).leadership().leader_id, Some(leader));
        }
        let plan = net.plan(a);
        // The first node is filled while the block is allocated, so that it
        // goes to the second; it is free again when the block moves.
        let local_blocker = net.allocate(a, 32 * 1024 * 1024 - 270_000, plan.job_id, Some(1)).unwrap();
        let bytes: Vec<u8> = (0..12345).map(|i| ((i * 17 + 3) % 251) as u8).collect();
        let handle = net.allocate(a, bytes.len() as u64, plan.job_id, Some(2)).unwrap();
        assert_eq!(handle.owner_node, 2);
        assert_eq!(net.at(b).ram.accounting.used(), bytes.len() as u64);
        for (i, chunk) in bytes.chunks(4096).enumerate() {
            net.write_chunk(b, &handle, 700, (i * 4096) as u64, chunk).unwrap();
        }
        let committed = net.commit(a, handle.duplicate(), &bytes, false).unwrap();
        let mut restored = vec![];
        for offset in (0..bytes.len()).step_by(4096) {
            restored.extend(net.read_chunk(b, &committed, offset as u64, 4096.min(bytes.len() - offset)).unwrap());
        }
        assert_eq!(bytes, restored);
        let leadership = net.at(a).leadership();
        let rejected = net.ask(b, Request::Migrate { handle: committed.duplicate(), destination: 3, leadership });
        assert!(rejected.is_err(), "destination without headroom must reject migration");
        assert_eq!(net.at(b).ram.accounting.used(), bytes.len() as u64);
        assert_eq!(net.read_chunk(b, &committed, 0, 4096).unwrap(), bytes[..4096]);
        net.ask(a, Request::Free { handle: local_blocker, direct: false }).unwrap();
        // A wrong lease and writes to committed blocks are refused.
        let mut wrong = committed.duplicate();
        wrong.lease_token = 1;
        assert!(net.read_chunk(b, &wrong, 0, 10).is_err());
        assert!(net.write_chunk(b, &committed, 700, 0, &bytes[..10]).is_err());
        // Under pressure the leader has the source move the block.
        net.meet();
        let result = net.ask(
            a,
            Request::MemoryPressure {
                node_id: 2,
                currently_owned: bytes.len() as u64,
                new_budget: 0,
                excess_bytes: bytes.len() as u64,
            },
        );
        match result.unwrap() {
            Reply::Relieved { migrated_bytes, unresolved_bytes, .. } => {
                assert_eq!(migrated_bytes, bytes.len() as u64);
                assert_eq!(unresolved_bytes, 0);
            }
            _ => panic!("a relief was expected"),
        }
        let migrated = net.resolve(a, &handle).unwrap();
        assert_ne!(migrated.owner_node, 2);
        assert_eq!(migrated.generation, 1);
        assert_eq!(net.at(b).ram.accounting.used(), 0);
        // The old handle leads to the new owner.
        assert_eq!(net.routed_read(a, &committed, 0, 4096).unwrap(), bytes[..4096]);
        net.ask(a, Request::Free { handle: migrated, direct: false }).unwrap();
        for address in [a, b, c] {
            assert_eq!(net.at(address).ram.accounting.used(), 0);
        }
    }
}

#[test]
fn checksum_failure_does_not_commit_and_frame_limits_are_enforced() {
    let address = endpoint(1);
    let mut net = Net::new(vec![start_with(1, 32 * 1024 * 1024, 128, "udp")]);
    let plan = net.plan(address);
    let h = net.allocate(address, 4096, plan.job_id, None).unwrap();
    let runtime = net.at(address);
    runtime.begin_chunk(&h, 800, 0, 4096, NOW).unwrap();
    assert!(runtime.ram.get(h.id).unwrap().busy);
    let landed = runtime.finish_chunk(h.id, h.job_id, 800, &[7; 4096], "bad");
    assert!(!Response::<u8>::error(&landed.unwrap_err()).ok);
    let refused = net.ask(address, Request::Commit { handle: h.duplicate(), checksum: "bad".to_string(), direct: true });
    assert!(refused.is_err());
    assert!(matches!(frame_size(&u32::MAX.to_be_bytes()), Err(Error::FrameLimit)));
    let config = net.at(address).config.clone();
    let mut wrong = config.clone();
    wrong.cluster_secret = Some("wrong secret".to_string());
    assert!(server_auth(&config, 1, &client_answer(&wrong, 1, 2)).is_err());
}

#[test]
fn interrupted_upload_cannot_commit_and_job_failure_is_explicit() {
    let address = endpoint(1);
    let mut net = Net::new(vec![start_with(1, 32 * 1024 * 1024, 128, "udp")]);
    let plan = net.plan(address);
    let handle = net.allocate(address, 4096, plan.job_id, None).unwrap();
    let payload = vec![19; 4096];
    let runtime = net.at(address);
    runtime.begin_chunk(&handle, 900, 0, 4096, NOW).unwrap();
    // The sender breaks off after 128 bytes.
    runtime.drop_chunk(handle.id);
    let result = net.commit(address, handle.duplicate(), &payload, true);
    assert!(result.is_err(), "partial transfer must never become visible");
    assert!(net.read_chunk(address, &handle, 0, 4096).is_err());
    // A whole chunk may follow a broken one.
    net.write_chunk(address, &handle, 901, 0, &payload).unwrap();
    let committed = net.commit(address, handle, &payload, true).unwrap();
    assert_eq!(committed.state, BlockState::Ready);
    assert_eq!(net.read_chunk(address, &committed, 0, 4096).unwrap(), payload);
    net.at(address).jobs.fail(plan.job_id, "TRAINPOOL_DATA_LOST: injected stress fault".to_string());
    let failed = net.ask(address, Request::JobStatus { job_id: plan.job_id });
    match failed {
        Err(e) => assert!(e.message().contains("TRAINPOOL_DATA_LOST")),
        Ok(_) => panic!("a failed job must say so"),
    }
    assert!(net.allocate(address, 1, plan.job_id, None).is_err());
    net.at(address).free(committed.id, committed.lease_token).unwrap();
    assert_eq!(net.at(address).ram.accounting.used(), 0);
}
