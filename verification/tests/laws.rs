use trainpool::address::{IpAddress, SocketAddress, LOCALHOST};
use trainpool::cluster::discovery::{advertised_address, Advertised, Announcement};
use trainpool::cluster::election::Leadership;
use trainpool::config::Config;
use trainpool::double::Double;
use trainpool::error::Error;
use trainpool::ids::{identity, identity_text};
use trainpool::jobs::{Job, Jobs};
use trainpool::memory::allocator::RamAccounting;
use trainpool::memory::block::{BlockState, Location, MemoryBlockHandle, TensorMetadata};
use trainpool::memory::migration;
use trainpool::memory::residency::ResidencyTable;
use trainpool::metrics::JobMetrics;
use trainpool::node::capabilities::{Found, NodeCapabilities};
use trainpool::node::gpu::GpuCapabilities;
use trainpool::protocol::request::Request;
use trainpool::protocol::Response;
use trainpool::runtime::control::{ControlStep, Reply};
use trainpool::runtime::data::ActiveTransfer;
use trainpool::runtime::datagram::Outcome;
use trainpool::runtime::dispatch::Moment;
use trainpool::runtime::relief::{ReliefEvent, ReliefStep};
use trainpool::runtime::{MemorySample, Runtime};
use trainpool::scheduler::planner::{primary_gpu, require_cuda, CapacityPlanner, StageSpec, TrainingPlanner};
use trainpool::scheduler::topology::{LinkEstimate, Topology};
use trainpool::transport::signature;
use trainpool::transport::udp::{Kind, Packet};

const GIB: u64 = 1024 * 1024 * 1024;
const NOW: u64 = 5_000_000;

fn d(x: f64) -> Double {
    Double { bits: x.to_bits() }
}

fn sample() -> MemorySample {
    MemorySample { available: 4 * GIB, ceiling: 4 * GIB, reserve_share: 0 }
}

fn moment() -> Moment {
    Moment { now_ms: NOW, now_ns: NOW * 1_000_000, sample: sample(), waited: d(7.0) }
}

fn endpoint(id: u128) -> SocketAddress {
    SocketAddress::V4 { ip: LOCALHOST, port: 7000 + id as u16 }
}

fn config(id: u128) -> Config {
    let mut c = Config::default();
    c.listen = endpoint(id);
    c.ram_reserve_bytes = 0;
    c.chunk_bytes = 4096;
    c
}

fn capabilities(id: u128, ram: u64) -> NodeCapabilities {
    let found = Found {
        hostname: Some(format!("node-{id}")),
        os: "mock".to_string(),
        architecture: "x86_64".to_string(),
        cpu_model: Some("cpu".to_string()),
        physical_cores: Some(2),
        logical_cores: 4,
        total_ram: ram,
        gpus: vec![],
        version: "test".to_string(),
    };
    NodeCapabilities::detect(id, endpoint(id), &config(id), found, id + 100, id + 1000, sample())
}

fn runtime(id: u128) -> Runtime {
    Runtime::new(config(id), capabilities(id, 8 * GIB), 0).unwrap()
}

fn handle(id: u128, size: u64) -> MemoryBlockHandle {
    MemoryBlockHandle {
        id,
        job_id: 71,
        size,
        owner_node: 1,
        owner_incarnation: 101,
        location_type: Location::Ram { node_id: 1 },
        checksum: None,
        state: BlockState::Writing,
        lease_token: 72,
        lease_expires_ms: NOW + 10_000,
        generation: 0,
        tensor: None,
    }
}

fn ask(r: &mut Runtime, request: Request) -> Result<ControlStep, Error> {
    let costs = r.membership.nodes().iter().map(|_| d(1.0)).collect();
    r.control(request, moment(), &costs)
}

fn reply(r: &mut Runtime, request: Request) -> Reply {
    match ask(r, request) {
        Ok(ControlStep::Reply { reply }) => reply,
        Ok(_) => panic!("an answer was expected"),
        Err(e) => panic!("{}", e.message()),
    }
}

fn refusal(r: &mut Runtime, request: Request) -> Error {
    match ask(r, request) {
        Ok(_) => panic!("a refusal was expected"),
        Err(e) => e,
    }
}

#[test]
fn announcements_are_believed_only_when_they_are_fresh_and_signed() {
    let mut c = config(1);
    c.cluster_secret = Some("lab secret".to_string());
    let a = Announcement::new(&capabilities(1, 8 * GIB), &c, "0.1.0", NOW);
    assert_eq!(a.control_address, IpAddress::V4 { ip: LOCALHOST });
    assert_eq!(a.control_port, 7001);
    assert_eq!(a.leader_election_score, 8 * GIB);
    let payload = b"as it was sent";
    let mac = signature(Some("lab secret"), payload);
    assert!(a.accept(payload, &mac, &c, NOW + 30_000).is_ok());
    assert!(a.accept(payload, &mac, &c, NOW - 30_000).is_ok());
    assert!(matches!(a.accept(payload, &mac, &c, NOW + 30_001), Err(Error::DiscoveryStale)));
    assert!(matches!(a.accept(payload, &mac, &c, NOW - 30_001), Err(Error::DiscoveryStale)));
    assert!(matches!(a.accept(b"changed", &mac, &c, NOW), Err(Error::AuthFailed)));
    assert!(matches!(a.accept(payload, &None, &c, NOW), Err(Error::SecretMismatch)));
    let mut other = c.clone();
    other.cluster_name = "another".to_string();
    assert!(matches!(a.accept(payload, &mac, &other, NOW), Err(Error::OtherCluster)));
    let mut odd = Announcement::new(&capabilities(1, 8 * GIB), &c, "0.1.0", NOW);
    odd.control_port = 0;
    assert!(matches!(odd.accept(payload, &mac, &c, NOW), Err(Error::PeerAddress)));
    odd.protocol_version = 2;
    assert!(matches!(odd.accept(payload, &mac, &c, NOW), Err(Error::DiscoveryVersion)));
}

#[test]
fn a_node_tells_others_an_address_that_they_can_reach() {
    let mut c = Config::default();
    let group = SocketAddress::V4 { ip: 0xefff_4a20, port: 7433 };
    assert_eq!(advertised_address(&c), Advertised::Towards { route: group, port: 7432 });
    c.seeds = vec![endpoint(4)];
    assert_eq!(advertised_address(&c), Advertised::Towards { route: endpoint(4), port: 7432 });
    c.listen = endpoint(5);
    assert_eq!(advertised_address(&c), Advertised::Known { address: endpoint(5) });
    c.advertise_ip = Some(9);
    assert_eq!(advertised_address(&c), Advertised::Known { address: SocketAddress::V4 { ip: 9, port: 7005 } });
}

#[test]
fn samples_of_a_link_are_smoothed_and_a_rate_is_kept() {
    let mut t = Topology::new();
    let link = |latency: f64, rate: Option<f64>| LinkEstimate {
        source: 1,
        destination: 2,
        latency_ms: d(latency),
        bytes_per_second: rate.map(d),
        sampled_at_ms: 3,
        active_transfers: 0,
    };
    t.update(link(8.0, Some(100.0)), d(0.0), d(0.0));
    assert_eq!(t.link(1, 2), Some(link(8.0, Some(100.0))));
    assert_eq!(t.link(2, 1), None);
    t.update(link(4.0, None), d(7.0), d(0.0));
    assert_eq!(t.link(1, 2), Some(link(7.0, Some(100.0))));
    t.update(link(4.0, Some(200.0)), d(6.25), d(125.0));
    assert_eq!(t.link(1, 2), Some(link(6.25, Some(125.0))));
    assert_eq!(t.links.len(), 1);
    assert_eq!(LinkEstimate::measured(1, 2, d(1.0), 0, d(9.0), 3), link(1.0, None));
    assert_eq!(LinkEstimate::measured(1, 2, d(1.0), 5, d(9.0), 3), link(1.0, Some(9.0)));
}

#[test]
fn a_job_that_failed_stays_failed() {
    let mut r = runtime(1);
    let plan = match reply(&mut r, Request::Plan { stages: vec![] }) {
        Reply::Plan { plan } => plan,
        _ => panic!("a plan was expected"),
    };
    assert_eq!(plan.strategy, "MemoryOnly");
    assert!(matches!(reply(&mut r, Request::JobStatus { job_id: plan.job_id }), Reply::Job { .. }));
    r.jobs.fail(plan.job_id, "first".to_string());
    r.jobs.fail(plan.job_id, "second".to_string());
    assert_eq!(refusal(&mut r, Request::JobStatus { job_id: plan.job_id }).message(), "second");
    assert!(matches!(refusal(&mut r, Request::JobStatus { job_id: 5 }), Error::JobUnknown));
    let mut jobs = Jobs::new();
    jobs.insert(Job { plan, error: None });
    jobs.lose_compute(1);
    assert_eq!(jobs.entries.len(), 1);
}

#[test]
fn a_new_epoch_of_the_leader_ends_its_jobs() {
    let mut r = runtime(1);
    let plan = match reply(&mut r, Request::Plan { stages: vec![] }) {
        Reply::Plan { plan } => plan,
        _ => panic!("a plan was expected"),
    };
    // A larger node takes over and goes again.
    r.accept_peer(capabilities(2, 9 * GIB), vec![], 31, 0).unwrap();
    assert_eq!(r.leadership().leader_id, Some(2));
    assert!(matches!(ask(&mut r, Request::JobStatus { job_id: plan.job_id }), Ok(ControlStep::Forward { .. })));
    assert_eq!(r.expire_peers(32, 8_000_000_000), vec![2]);
    assert_eq!(r.leadership().leader_id, Some(1));
    assert_eq!(r.leadership().leader_epoch, 32);
    assert!(matches!(refusal(&mut r, Request::JobStatus { job_id: plan.job_id }), Error::JobStale));
}

#[test]
fn stale_leaders_are_refused() {
    let mut r = runtime(1);
    let stale = Leadership { leader_id: Some(1), leader_epoch: 5, election_score: 8 * GIB };
    assert!(matches!(
        refusal(&mut r, Request::AllocateLocal { handle: handle(3, 10), leadership: stale }),
        Error::LeadershipChanged
    ));
    assert!(matches!(
        refusal(&mut r, Request::Publish { handle: handle(3, 10), leadership: stale }),
        Error::LeadershipChanged
    ));
    assert!(matches!(
        refusal(&mut r, Request::Migrate { handle: handle(3, 10), destination: 2, leadership: stale }),
        Error::LeadershipChanged
    ));
    assert!(matches!(
        refusal(
            &mut r,
            Request::Register { handle: handle(3, 10), previous_generation: None, leadership: stale }
        ),
        Error::LeadershipChanged
    ));
    assert!(r.validate_leadership(&stale).is_err());
    let now = r.leadership();
    assert!(r.validate_leadership(&now).is_ok());
}

#[test]
fn a_migration_is_noted_once() {
    let mut r = runtime(1);
    let leadership = r.leadership();
    let report = |generation: u64, previous: Option<u64>, state: BlockState| {
        let mut h = handle(3, 10);
        h.generation = generation;
        h.state = state;
        Request::Register { handle: h, previous_generation: previous, leadership }
    };
    assert!(matches!(
        refusal(&mut r, report(1, Some(0), BlockState::Ready)),
        Error::MigrationConflict
    ));
    reply(&mut r, report(0, None, BlockState::Ready));
    assert!(matches!(refusal(&mut r, report(2, Some(0), BlockState::Ready)), Error::MigrationCommit));
    assert!(matches!(refusal(&mut r, report(1, Some(0), BlockState::Writing)), Error::MigrationCommit));
    reply(&mut r, report(1, Some(0), BlockState::Ready));
    assert!(matches!(
        refusal(&mut r, report(1, Some(0), BlockState::Ready)),
        Error::MigrationConflict
    ));
    // An older report does not undo it.
    reply(&mut r, report(0, None, BlockState::Ready));
    match reply(&mut r, Request::Resolve { id: 3, lease_token: 72 }) {
        Reply::Handle { handle } => assert_eq!(handle.generation, 1),
        _ => panic!("a handle was expected"),
    }
    assert!(matches!(refusal(&mut r, Request::Resolve { id: 3, lease_token: 1 }), Error::LeaseDenied));
    assert!(matches!(refusal(&mut r, Request::Resolve { id: 4, lease_token: 1 }), Error::BlockUnknown { id: 4 }));
}

#[test]
fn a_token_is_required_and_a_lease_ends() {
    let mut r = runtime(1);
    let leadership = r.leadership();
    reply(&mut r, Request::AllocateLocal { handle: handle(3, 10), leadership });
    let mut wrong = handle(3, 10);
    wrong.lease_token = 1;
    assert!(matches!(r.begin_chunk(&wrong, 8, 0, 10, NOW), Err(Error::LeaseDenied)));
    assert!(matches!(r.ram.read(&wrong, 0, 1, NOW), Err(Error::LeaseDenied)));
    assert!(matches!(
        refusal(&mut r, Request::Renew { handle: wrong.duplicate(), direct: true }),
        Error::LeaseDenied
    ));
    assert!(matches!(
        refusal(&mut r, Request::Free { handle: wrong.duplicate(), direct: true }),
        Error::LeaseDenied
    ));
    assert!(matches!(r.begin_chunk(&handle(3, 10), 8, 0, 10, NOW + 10_000), Err(Error::LeaseExpired)));
    assert!(matches!(r.begin_chunk(&handle(3, 10), 8, 5, 10, NOW), Err(Error::WriteOrder)));
    let mut later = handle(3, 10);
    later.generation = 4;
    assert!(matches!(r.begin_chunk(&later, 8, 0, 10, NOW), Err(Error::WriteStaleDirect)));
    r.begin_chunk(&handle(3, 10), 8, 0, 10, NOW).unwrap();
    assert!(matches!(r.finish_chunk(3, 71, 8, &[9; 4], "bad"), Err(Error::ChecksumMismatch)));
    assert_eq!(r.ram.get(3).unwrap().bytes, [9, 9, 9, 9, 0, 0, 0, 0, 0, 0]);
    assert_eq!(r.ram.get(3).unwrap().written, 0);
    r.begin_chunk(&handle(3, 10), 8, 0, 10, NOW).unwrap();
    let sum = blake3::hash(&[1; 4]).to_hex().to_string();
    r.finish_chunk(3, 71, 8, &[1; 4], &sum).unwrap();
    assert!(matches!(r.begin_chunk(&handle(3, 10), 9, 4, 10, NOW), Err(Error::TransferMismatch)));
    assert!(matches!(
        refusal(&mut r, Request::Commit { handle: handle(3, 10), checksum: sum.clone(), direct: true }),
        Error::Incomplete
    ));
    assert!(matches!(r.ram.read(&handle(3, 10), 0, 1, NOW), Err(Error::ReadStale)));
    r.begin_chunk(&handle(3, 10), 8, 4, 10, NOW).unwrap();
    r.finish_chunk(3, 71, 8, &[2; 6], &blake3::hash(&[2; 6]).to_hex().to_string()).unwrap();
    assert!(matches!(
        refusal(&mut r, Request::Commit { handle: handle(3, 10), checksum: sum, direct: true }),
        Error::ChecksumMismatch
    ));
    let whole = [1, 1, 1, 1, 2, 2, 2, 2, 2, 2];
    let checksum = blake3::hash(&whole).to_hex().to_string();
    match ask(&mut r, Request::Commit { handle: handle(3, 10), checksum: checksum.clone(), direct: true }) {
        Ok(ControlStep::Register { reply: Reply::Handle { handle }, .. }) => {
            assert_eq!(handle.checksum, Some(checksum));
            assert_eq!(handle.state, BlockState::Ready);
            assert_eq!(r.ram.read(&handle, 2, 5, NOW).unwrap(), whole[2..7].to_vec());
            assert!(matches!(r.ram.read(&handle, 2, 9, NOW), Err(Error::ReadRange)));
        }
        _ => panic!("a committed block was expected"),
    }
    assert!(matches!(
        r.relay_write(&handle(3, 10), 8, 0, &whole, &blake3::hash(&whole).to_hex().to_string(), NOW),
        Err(Error::WriteStale)
    ));
}

#[test]
fn blocks_are_refused_where_there_is_no_room_for_them() {
    let mut r = runtime(1);
    let leadership = r.leadership();
    let mut local = |h: MemoryBlockHandle| refusal(&mut r, Request::AllocateLocal { handle: h, leadership });
    let mut h = handle(3, 10);
    h.owner_node = 2;
    assert!(matches!(local(h), Error::WrongOwner));
    let mut h = handle(3, 10);
    h.location_type = Location::Disk { node_id: 1 };
    assert!(matches!(local(h), Error::OnlyRam));
    let mut h = handle(3, 10);
    h.state = BlockState::Ready;
    assert!(matches!(local(h), Error::MustWrite));
    let mut h = handle(3, 10);
    h.tensor = Some(TensorMetadata {
        dtype: "uint8".to_string(),
        shape: vec![11],
        layout: "contiguous".to_string(),
        byte_length: 11,
    });
    assert!(matches!(local(h), Error::TensorSize));
    assert!(matches!(local(handle(3, 4 * GIB)), Error::Headroom));
    assert!(matches!(local(handle(3, 4 * GIB - 262_143)), Error::Headroom));
    assert_eq!(r.ram.accounting.used(), 0);
}

#[test]
fn an_allocation_leaves_headroom_for_relays() {
    let mut r = runtime(1);
    let leadership = r.leadership();
    let small = MemorySample { available: 4 * GIB, ceiling: 300_000, reserve_share: 0 };
    let at = Moment { now_ms: NOW, now_ns: 0, sample: small, waited: d(0.0) };
    let costs = vec![];
    let mut local = |size: u64| r.control(Request::AllocateLocal { handle: handle(3, size), leadership }, at, &costs);
    assert!(matches!(local(37_857), Err(Error::Headroom)));
    assert!(matches!(local(37_856), Ok(ControlStep::Reply { reply: Reply::Handle { .. } })));
    assert_eq!(r.ram.accounting.used() + 262_144, 300_000);
    assert_eq!(r.ram.accounting.peak, 37_856);
    assert_eq!(r.ram.accounting.jobs.get(71).unwrap().peak, 37_856);
    r.free(3, 72).unwrap();
    assert_eq!(r.ram.accounting.used(), 0);
    assert_eq!(r.ram.accounting.peak, 37_856);
    assert_eq!(r.ram.accounting.jobs.get(71).unwrap().owned, 0);
    assert_eq!(r.ram.accounting.jobs.get(71).unwrap().peak, 37_856);
    assert_eq!(r.local().memory.trainpool_ram_budget, 300_000);
}

#[test]
fn a_block_without_bytes_needs_no_memory() {
    let mut r = runtime(1);
    assert_eq!(r.ram.accounting.jobs.len(), 0);
    let leadership = r.leadership();
    let made = reply(&mut r, Request::AllocateLocal { handle: handle(3, 0), leadership });
    assert!(matches!(made, Reply::Handle { handle } if handle.id == 3 && handle.size == 0));
    assert!(r.ram.get(3).unwrap().bytes.is_empty());
    assert_eq!(r.ram.accounting.used(), 0);
}

#[test]
fn ram_for_an_sdk_is_promised_for_a_while() {
    let mut r = runtime(1);
    assert!(matches!(refusal(&mut r, Request::ReserveStaging { bytes: 4097 }), Error::StagingTooLarge));
    let id = match reply(&mut r, Request::ReserveStaging { bytes: 4096 }) {
        Reply::Id { id } => id,
        _ => panic!("an id was expected"),
    };
    let other = match reply(&mut r, Request::ReserveStaging { bytes: 100 }) {
        Reply::Id { id } => id,
        _ => panic!("an id was expected"),
    };
    assert_ne!(id, other);
    assert_eq!(r.ram.accounting.used(), 4196);
    reply(&mut r, Request::ReleaseStaging { reservation_id: id });
    reply(&mut r, Request::ReleaseStaging { reservation_id: id });
    assert_eq!(r.ram.accounting.used(), 100);
    r.expire_staging(NOW + 299_999);
    assert_eq!(r.ram.accounting.used(), 100);
    r.expire_staging(NOW + 300_000);
    assert_eq!(r.ram.accounting.used(), 0);
}

#[test]
fn what_is_reserved_is_owned_until_it_is_released() {
    let mut a = RamAccounting::new();
    a.budget = 50;
    let first = a.reserve(20).unwrap();
    let second = a.reserve_payload(9, 30).unwrap();
    assert_eq!(a.used(), 50);
    assert_eq!(a.jobs.get(9).unwrap().owned, 30);
    assert!(matches!(a.reserve(1), Err(Error::OutOfCapacity { bytes: 1 })));
    assert!(a.reserve_payload(9, u64::MAX).is_err());
    a.release(first);
    assert_eq!(a.used(), 30);
    a.release(second);
    assert_eq!(a.used(), 0);
    assert_eq!(a.peak, 50);
    assert_eq!(a.jobs.get(9).unwrap().owned, 0);
}

#[test]
fn a_node_that_starts_again_has_lost_its_blocks() {
    let mut r = runtime(1);
    r.accept_peer(capabilities(2, GIB), vec![], 31, 0).unwrap();
    let plan = match reply(&mut r, Request::Plan { stages: vec![] }) {
        Reply::Plan { plan } => plan,
        _ => panic!("a plan was expected"),
    };
    let mut h = handle(3, 10);
    h.job_id = plan.job_id;
    h.owner_node = 2;
    h.owner_incarnation = 102;
    h.state = BlockState::Ready;
    let mut foreign = h.duplicate();
    foreign.owner_node = 1;
    assert!(matches!(
        r.accept_peer(capabilities(2, GIB), vec![foreign], 31, 0),
        Err(Error::InventoryOwner)
    ));
    r.accept_peer(capabilities(2, GIB), vec![h], 31, 0).unwrap();
    assert!(matches!(reply(&mut r, Request::Resolve { id: 3, lease_token: 72 }), Reply::Handle { .. }));
    let mut again = capabilities(2, GIB);
    again.incarnation = 555;
    r.accept_peer(again, vec![], 31, 0).unwrap();
    assert!(matches!(
        refusal(&mut r, Request::Resolve { id: 3, lease_token: 72 }),
        Error::BlockLost { id: 3, node: 2 }
    ));
    assert_eq!(
        refusal(&mut r, Request::JobStatus { job_id: plan.job_id }).message(),
        "TRAINPOOL_DATA_LOST: node 00000000-0000-0000-0000-000000000002 restarted"
    );
    assert!(matches!(r.accept_peer(capabilities(1, GIB), vec![], 31, 0), Err(Error::DuplicateNode)));
    let mut odd = capabilities(4, GIB);
    odd.network.chunk_bytes = 100;
    assert!(matches!(r.accept_peer(odd, vec![], 31, 0), Err(Error::PeerChunk)));
}

#[test]
fn a_lost_node_takes_its_blocks_with_it_for_good() {
    let mut t = ResidencyTable::new();
    let mut h = handle(3, 10);
    h.state = BlockState::Ready;
    t.register(h.duplicate());
    assert_eq!(t.lose_node(2), Vec::<u128>::new());
    assert_eq!(t.lose_node(1), vec![71]);
    assert_eq!(t.get(3).unwrap().state, BlockState::Lost);
    assert!(t.get(4).is_none());
}

#[test]
fn the_nodes_to_contact_are_the_seeds_and_the_peers() {
    let mut c = config(1);
    c.seeds = vec![endpoint(9), endpoint(3)];
    let mut r = Runtime::new(c, capabilities(1, 8 * GIB), 0).unwrap();
    r.accept_peer(capabilities(3, GIB), vec![], 31, 0).unwrap();
    r.accept_peer(capabilities(2, GIB), vec![], 31, 0).unwrap();
    assert_eq!(r.contacts(), vec![endpoint(2), endpoint(3), endpoint(9)]);
    let pairs: Vec<(SocketAddress, u128)> =
        r.benchmark_pairs().into_iter().map(|p| (p.address, p.destination)).collect();
    assert_eq!(
        pairs,
        vec![
            (endpoint(1), 2),
            (endpoint(1), 3),
            (endpoint(2), 1),
            (endpoint(2), 3),
            (endpoint(3), 1),
            (endpoint(3), 2)
        ]
    );
    assert_eq!(r.address(2).unwrap(), endpoint(2));
    assert!(matches!(r.address(8), Err(Error::NodeUnavailable { node: 8 })));
    assert!(matches!(refusal(&mut r, Request::Measure { destination: 1, bytes: 5 }), Error::BenchmarkSelf));
    assert!(matches!(refusal(&mut r, Request::Benchmark { bytes: 67_108_865 }), Error::BenchmarkTooLarge));
    assert!(matches!(
        ask(&mut r, Request::Measure { destination: 2, bytes: 5 }),
        Ok(ControlStep::Measure { bytes: 5, .. })
    ));
}

#[test]
fn pressure_is_felt_when_more_is_owned_than_the_budget() {
    let mut r = runtime(1);
    let leadership = r.leadership();
    reply(&mut r, Request::AllocateLocal { handle: handle(3, 1000), leadership });
    assert!(r.feel_pressure().is_none());
    r.config.ram_limit_bytes = Some(400);
    r.tick(sample(), 33, NOW, 0);
    match r.feel_pressure() {
        Some(Request::MemoryPressure { node_id, currently_owned, new_budget, excess_bytes }) => {
            assert_eq!((node_id, currently_owned, new_budget, excess_bytes), (1, 1000, 400, 600));
        }
        _ => panic!("pressure was expected"),
    }
    assert_eq!(r.metrics.job(71).ram_pressure_events, 1);
    match reply(&mut r, Request::Metrics) {
        Reply::Metrics { owned_ram, peak_ram } => assert_eq!((owned_ram, peak_ram), (1000, 1000)),
        _ => panic!("counters were expected"),
    }
    r.tick(sample(), 33, NOW + 10_000, 0);
    assert_eq!(r.ram.accounting.used(), 0);
    assert!(r.feel_pressure().is_none());
}

#[test]
fn one_relief_at_a_time() {
    let mut r = runtime(1);
    let mut relief = r.begin_relief(2, 100, NOW).unwrap();
    assert!(matches!(r.relief_step(&mut relief, ReliefEvent::Begun), Ok(ReliefStep::Over { moved: 0 })));
    assert!(r.begin_relief(2, 100, NOW).is_none());
    r.end_relief();
    assert!(r.begin_relief(2, 100, NOW).is_some());
    match Runtime::relieved(100, 30) {
        Reply::Relieved { requested_bytes, migrated_bytes, unresolved_bytes } => {
            assert_eq!((requested_bytes, migrated_bytes, unresolved_bytes), (100, 30, 70));
        }
        _ => panic!("a relief was expected"),
    }
}

#[test]
fn allocations_need_a_live_job_and_a_node_with_room() {
    let mut r = runtime(1);
    let plan = match reply(&mut r, Request::Plan { stages: vec![] }) {
        Reply::Plan { plan } => plan,
        _ => panic!("a plan was expected"),
    };
    let allocate = |size: u64, job_id: u128, preferred: Option<u128>| Request::Allocate {
        size,
        job_id,
        compute_node: 1,
        preferred_node: preferred,
        tensor: None,
    };
    assert!(matches!(refusal(&mut r, allocate(0, plan.job_id, None)), Error::ZeroLength));
    assert!(matches!(refusal(&mut r, allocate(10, 5, None)), Error::JobLost));
    match ask(&mut r, allocate(10, plan.job_id, Some(9))) {
        Ok(ControlStep::Allocate { allocation }) => {
            let none = r.allocation_next(&allocation, 1, 2, NOW);
            assert_eq!(
                none.map(|_| ()).unwrap_err().message(),
                "TRAINPOOL_OUT_OF_CAPACITY: no eligible memory nodes"
            );
        }
        _ => panic!("a search was expected"),
    }
    match ask(&mut r, allocate(10, plan.job_id, None)) {
        Ok(ControlStep::Allocate { mut allocation }) => {
            let (address, h) = r.allocation_next(&allocation, 41, 42, NOW).unwrap();
            assert_eq!(address, endpoint(1));
            assert_eq!((h.id, h.lease_token, h.lease_expires_ms), (41, 42, NOW + 300_000));
            assert!(r.allocation_answered(&mut allocation, h, Some("full".to_string())).is_none());
            let none = r.allocation_next(&allocation, 1, 2, NOW);
            assert_eq!(none.map(|_| ()).unwrap_err().message(), "TRAINPOOL_OUT_OF_CAPACITY: full");
        }
        _ => panic!("a search was expected"),
    }
}

fn card(uuid: &str, usable: u64) -> GpuCapabilities {
    let mut g = GpuCapabilities::default();
    g.uuid = uuid.to_string();
    g.vram_total = usable + 1;
    g.usable_vram = usable;
    g
}

#[test]
fn the_primary_card_is_the_largest_and_ties_are_broken_by_name() {
    let mut a = capabilities(1, 8 * GIB);
    a.runtime.gpu_compute = true;
    a.gpus = vec![card("GPU-b", 7), card("GPU-a", 7), card("GPU-c", 3)];
    let mut b = capabilities(2, 8 * GIB);
    b.gpus = vec![card("GPU-z", 9)];
    let nodes = vec![a, b];
    let primary = primary_gpu(&nodes).unwrap();
    assert_eq!(primary.usable_bytes, 7);
    assert_eq!(primary.node_id, 1);
    let leader = Leadership { leader_id: Some(2), leader_epoch: 8, election_score: 1 };
    let plan = CapacityPlanner.plan_as(&nodes, &leader, &Topology::new(), &vec![], 99).unwrap();
    assert_eq!(plan.job_id, 99);
    assert_eq!(plan.leader_epoch, 8);
    assert_eq!(plan.gpu_assignments.len(), 1);
    assert_eq!(plan.gpu_assignments[0].gpu_id, primary.gpu_id);
    assert!(matches!(require_cuda(&plan, 2), Err(Error::NoCudaNode { node: 2 })));
    let none = CapacityPlanner.plan_as(&vec![], &leader, &Topology::new(), &vec![], 99).unwrap();
    assert_eq!(none.strategy, "MemoryOnly");
    let leaderless = Leadership::default();
    assert!(matches!(
        CapacityPlanner.plan_as(&nodes, &leaderless, &Topology::new(), &vec![], 99),
        Err(Error::NoLeader)
    ));
    let stage = StageSpec { name: "s".to_string(), working_set_bytes: 1 };
    assert!(matches!(
        CapacityPlanner.plan_as(&vec![], &leader, &Topology::new(), &vec![stage], 99),
        Err(Error::NoCuda)
    ));
}

#[test]
fn a_refused_driver_query_does_not_change_the_inventory() {
    let mut me = capabilities(1, 8 * GIB);
    me.gpus = vec![card("GPU-a", 7), card("GPU-b", 5)];
    me.gpus[0].trainpool_allocated_vram = 2;
    let mut r = Runtime::new(config(1), me, 0).unwrap();
    r.merge_gpus(&vec![]);
    assert_eq!(r.local().gpus.len(), 2);
    let mut seen = card("GPU-a", 4);
    seen.vram_free = 4;
    r.merge_gpus(&vec![seen, card("GPU-c", 1)]);
    let now = r.local().gpus;
    assert_eq!(now.len(), 2);
    assert_eq!(now[0].usable_vram, 4);
    assert_eq!(now[0].trainpool_allocated_vram, 2);
    assert_eq!(now[1].usable_vram, 5);
}

#[test]
fn reports_of_an_sdk_are_shown_with_their_age() {
    let mut r = runtime(1);
    let mut m = JobMetrics::default();
    m.sdk_metrics_timestamp_ms = Some(NOW - 40);
    m.torch_reserved_bytes = Some(6);
    m.prefetch_hits = 3;
    reply(&mut r, Request::ReportMetrics { job_id: 71, metrics: m });
    assert_eq!(r.metrics.job(71).prefetch_hits, 3);
    assert_eq!(f64::from_bits(r.metrics.job(71).gpu_wait_for_data_ms.bits), 7.0);
    let status = r.status(sample(), NOW);
    assert_eq!(status.local_node, 1);
    assert_eq!(status.nodes.len(), 1);
    assert_eq!(status.chunk_bytes, 4096);
    assert_eq!(status.logical_memory.local_physical_ram, 8 * GIB);
}

#[test]
fn transfers_are_counted_while_they_last() {
    let mut r = runtime(1);
    let one = ActiveTransfer::new(&mut r.active_transfers);
    let two = ActiveTransfer::new(&mut r.active_transfers);
    assert_eq!(r.active_transfers, 2);
    r.refresh_memory(sample());
    assert_eq!(r.local().network.active_transfers, 2);
    one.end(&mut r.active_transfers);
    two.end(&mut r.active_transfers);
    assert_eq!(r.active_transfers, 0);
}

#[test]
fn requests_for_bytes_are_held_to_their_bounds() {
    let mut r = runtime(1);
    let write = |offset: u64, length: usize, total: u64| Request::WriteChunk {
        handle: handle(3, 9000),
        transfer_id: 1,
        offset,
        length,
        total_size: total,
        checksum: String::new(),
        direct: true,
    };
    assert!(matches!(r.data_path(&write(0, 0, 9000)), Err(Error::ChunkSize)));
    assert!(matches!(r.data_path(&write(0, 4097, 9000)), Err(Error::ChunkSize)));
    assert!(matches!(r.data_path(&write(8999, 2, 9000)), Err(Error::ChunkRange)));
    assert!(matches!(r.data_path(&write(0, 2, 8999)), Err(Error::ChunkRange)));
    assert!(r.data_path(&write(8998, 2, 9000)).is_ok());
    let read = |offset: u64, length: usize| Request::ReadChunk {
        handle: handle(3, 9000),
        transfer_id: 1,
        offset,
        length,
        direct: false,
    };
    assert!(matches!(r.data_path(&read(u64::MAX, 2)), Err(Error::ReadRequestRange)));
    assert!(matches!(r.data_path(&Request::Probe { bytes: 67_108_865 }), Err(Error::ProbeTooLarge)));
    assert!(matches!(r.data_path(&Request::Ping), Err(Error::NotData)));
    assert!(matches!(refusal(&mut r, Request::Probe { bytes: 1 }), Error::NotControl));
    assert!(Request::Probe { bytes: 1 }.is_for_data());
    assert!(Request::JobStatus { job_id: 1 }.is_for_leader());
    assert_eq!(write(0, 1, 1).block(), None);
    assert_eq!(Request::Free { handle: handle(3, 1), direct: true }.block(), Some(3));
    assert_eq!(Request::Free { handle: handle(3, 1), direct: false }.block(), None);
}

#[test]
fn answers_say_whether_all_went_well() {
    let good: Response<u8> = Response::data(5);
    assert!(good.check().is_ok());
    assert_eq!(good.into_data().unwrap(), 5);
    let bad: Response<u8> = Response::error(&Error::NoLeader);
    assert!(!bad.ok);
    assert_eq!(bad.check().unwrap_err().message(), Error::NoLeader.message());
    assert!(bad.into_data().is_err());
    let odd: Response<u8> = Response { ok: false, data: None, error: None };
    assert_eq!(odd.check().unwrap_err().message(), "protocol failure");
    let empty: Response<u8> = Response { ok: true, data: None, error: None };
    assert!(matches!(empty.into_data(), Err(Error::ProtocolFailure)));
}

#[test]
fn datagrams_that_make_no_sense_are_answered_with_the_reason() {
    let mut r = runtime(1);
    let leadership = r.leadership();
    reply(&mut r, Request::AllocateLocal { handle: handle(3, 5000), leadership });
    let mut why = |p: &Packet| match r.udp_datagram(p, endpoint(9), NOW, 0) {
        Outcome::Reply { wire, refusal, .. } => {
            assert!(refusal);
            let answer = Packet::decode(&wire, None).unwrap();
            assert_eq!(answer.kind, Kind::Error);
            String::from_utf8(answer.payload).unwrap()
        }
        _ => panic!("a refusal was expected"),
    };
    let text = |e: Error| e.message();
    let h = handle(3, 5000);
    let start = |length: u64, count: u32| {
        let mut p = Packet::for_handle(Kind::Start, &h, 4);
        p.sequence_id = count;
        p.payload = length.to_be_bytes().to_vec();
        p.payload.extend_from_slice(&[0; 32]);
        p
    };
    let mut short = start(10, 1);
    short.payload.pop();
    assert_eq!(why(&short), text(Error::UdpStart));
    assert_eq!(why(&start(0, 1)), text(Error::UdpSessionLength));
    assert_eq!(why(&start(4097, 4)), text(Error::UdpSessionLength));
    assert_eq!(why(&start(1201, 1)), text(Error::UdpPacketCount));
    let mut far = start(4096, 4);
    far.offset = 1000;
    assert_eq!(why(&far), text(Error::UdpSessionRange));
    let mut unknown = start(10, 1);
    unknown.block_id = 44;
    assert_eq!(why(&unknown), text(Error::BlockAbsent { id: 44 }));
    let mut stale = start(10, 1);
    stale.generation = 2;
    assert_eq!(why(&stale), text(Error::UdpWriteStale));
    let read = |offset: u64, length: u32| {
        let mut p = Packet::for_handle(Kind::ReadRequest, &h, 4);
        p.offset = offset;
        p.sequence_id = length;
        p
    };
    assert_eq!(why(&read(0, 0)), text(Error::UdpReadLength));
    assert_eq!(why(&read(0, 10)), text(Error::UdpReadStale));
    assert_eq!(why(&Packet::for_handle(Kind::Data, &h, 4)), text(Error::UdpTransferStale));
    assert_eq!(why(&Packet::for_handle(Kind::Fin, &h, 4)), text(Error::UdpTransferStale));
    assert!(matches!(r.udp_datagram(&start(2400, 2), endpoint(9), NOW, 0), Outcome::Reply { refusal: false, .. }));
    let mut why = |p: &Packet| match r.udp_datagram(p, endpoint(9), NOW, 0) {
        Outcome::Reply { wire, refusal, .. } => {
            assert!(refusal);
            String::from_utf8(Packet::decode(&wire, None).unwrap().payload).unwrap()
        }
        _ => panic!("a refusal was expected"),
    };
    let data = |sequence: u32, offset: u64, length: usize| {
        let mut p = Packet::for_handle(Kind::Data, &h, 4);
        p.sequence_id = sequence;
        p.offset = offset;
        p.payload = vec![1; length];
        p
    };
    assert_eq!(why(&data(2, 2400, 1)), text(Error::UdpSequence));
    assert_eq!(why(&data(1, 1100, 1)), text(Error::UdpOffset));
    assert_eq!(why(&data(1, 1200, 1201)), text(Error::UdpPayload));
    let mut changed = data(1, 1200, 1200);
    changed.generation = 7;
    assert_eq!(why(&changed), text(Error::UdpSessionChanged));
    for sequence in 0..2 {
        let p = data(sequence, sequence as u64 * 1200, 1200);
        r.udp_datagram(&p, endpoint(9), NOW, 0);
    }
    let mut fin = Packet::for_handle(Kind::Fin, &h, 4);
    fin.payload = vec![1; 32];
    assert!(matches!(r.udp_datagram(&fin, endpoint(9), NOW, 0), Outcome::Reply { refusal: true, .. }));
    fin.payload = vec![0; 32];
    match r.udp_datagram(&fin, endpoint(9), NOW, 0) {
        Outcome::Reply { wire, .. } => assert_eq!(
            String::from_utf8(Packet::decode(&wire, None).unwrap().payload).unwrap(),
            Error::UdpChecksum.message()
        ),
        _ => panic!("a refusal was expected"),
    }
    // A silent sender is given up when another one starts.
    let owned = r.ram.accounting.used();
    assert_eq!(owned, 5000 + 2400);
    let mut other = start(10, 1);
    other.transfer_id = 5;
    r.udp_datagram(&other, endpoint(9), NOW, 31_000_000_000);
    assert_eq!(r.ram.accounting.used(), 5010);
    assert_eq!(r.metrics.job(71).failed_transfers, 1);
    assert!(matches!(
        r.udp_datagram(&Packet::for_handle(Kind::Abort, &h, 5), endpoint(9), NOW, 31_000_000_000),
        Outcome::Silent
    ));
    assert_eq!(r.ram.accounting.used(), 5000);
}

#[test]
fn an_identity_that_was_kept_is_found_again() {
    let id = 0x550e8400_e29b_41d4_a716_446655440000_u128;
    assert_eq!(identity_text(id), "550e8400-e29b-41d4-a716-446655440000\n");
    for id in [id, 0, 1, u128::MAX] {
        assert_eq!(identity(&identity_text(id)).unwrap(), id);
    }
    for text in [
        " \t550E8400-E29B-41D4-A716-446655440000\r\n",
        "550e8400e29b41d4a716446655440000",
        "{550e8400-e29b-41d4-a716-446655440000}",
        "URN:uuid:550e8400-e29b-41d4-a716-446655440000",
    ] {
        assert_eq!(identity(text).unwrap(), id);
    }
    assert_eq!(identity("abc").err().unwrap().message(), "invalid length: found 3");
    assert_eq!(identity("").err().unwrap().message(), "invalid length: found 0");
    assert!(identity("550e8400-e29b-41d4-a716-44665544000z").is_err());
    assert!(identity("550e8400e-29b-41d4-a716-446655440000").is_err());
    assert!(identity("(550e8400-e29b-41d4-a716-446655440000)").is_err());
}

fn reported(id: u128, size: u64, owner: u128) -> MemoryBlockHandle {
    let mut h = handle(id, size);
    h.owner_node = owner;
    h.owner_incarnation = owner + 100;
    h.state = BlockState::Ready;
    h
}

#[test]
fn a_relief_asks_every_node_and_counts_what_was_taken() {
    let mut r = runtime(1);
    let inventory = vec![reported(21, 30, 2), reported(22, 10, 2), reported(23, 20, 2)];
    r.accept_peer(capabilities(2, GIB), inventory, 31, 0).unwrap();
    r.accept_peer(capabilities(3, GIB), vec![], 31, 0).unwrap();
    let prices = |r: &Runtime| ReliefEvent::Priced { costs: r.relief_nodes(2).iter().map(|_| d(1.0)).collect() };
    let to = |step: Result<ReliefStep, Error>| match step {
        Ok(ReliefStep::Ask { address, request: Request::Migrate { handle, destination, .. } }) => {
            assert_eq!(address, endpoint(2));
            (handle.id, destination)
        }
        _ => panic!("a request was expected"),
    };
    let mut f = r.begin_relief(2, 25, NOW).unwrap();
    assert!(matches!(r.relief_step(&mut f, ReliefEvent::Begun), Ok(ReliefStep::Price { size: 10 })));
    let first = to(r.relief_step(&mut f, prices(&r)));
    let second = to(r.relief_step(&mut f, ReliefEvent::Answered { moved: false }));
    assert_eq!((first.0, second.0), (22, 22));
    let mut asked = [first.1, second.1];
    asked.sort();
    assert_eq!(asked, [1, 3]);
    assert!(matches!(
        r.relief_step(&mut f, ReliefEvent::Answered { moved: false }),
        Ok(ReliefStep::Price { size: 20 })
    ));
    assert_eq!(to(r.relief_step(&mut f, prices(&r))).0, 23);
    assert!(matches!(
        r.relief_step(&mut f, ReliefEvent::Answered { moved: true }),
        Ok(ReliefStep::Price { size: 30 })
    ));
    assert_eq!(to(r.relief_step(&mut f, prices(&r))).0, 21);
    assert!(matches!(
        r.relief_step(&mut f, ReliefEvent::Answered { moved: true }),
        Ok(ReliefStep::Over { moved: 50 })
    ));
    r.end_relief();

    // The excess is gone after the first block.
    let mut f = r.begin_relief(2, 10, NOW).unwrap();
    r.relief_step(&mut f, ReliefEvent::Begun).unwrap();
    r.relief_step(&mut f, prices(&r)).unwrap();
    assert!(matches!(
        r.relief_step(&mut f, ReliefEvent::Answered { moved: true }),
        Ok(ReliefStep::Over { moved: 10 })
    ));
    r.end_relief();

    // A source that is gone ends the relief.
    let mut f = r.begin_relief(2, 10, NOW).unwrap();
    r.relief_step(&mut f, ReliefEvent::Begun).unwrap();
    r.expire_peers(32, 8_000_000_000);
    r.accept_peer(capabilities(3, GIB), vec![], 31, 0).unwrap();
    assert!(matches!(r.relief_step(&mut f, prices(&r)), Err(Error::NodeUnavailable { node: 2 })));
}

#[test]
fn a_copy_that_fails_is_given_back_whatever_went_wrong() {
    let mut r = runtime(1);
    r.accept_peer(capabilities(2, GIB), vec![], 31, 0).unwrap();
    let leadership = r.leadership();
    reply(&mut r, Request::AllocateLocal { handle: handle(3, 10), leadership });
    let sum = blake3::hash(&[2; 10]).to_hex().to_string();
    r.begin_chunk(&handle(3, 10), 8, 0, 10, NOW).unwrap();
    r.finish_chunk(3, 71, 8, &[2; 10], &sum).unwrap();
    ask(&mut r, Request::Commit { handle: handle(3, 10), checksum: sum, direct: true }).unwrap();
    let request = Request::Migrate { handle: handle(3, 10), destination: 2, leadership };
    let mut m = match ask(&mut r, request) {
        Ok(ControlStep::Migrate { migration }) => migration,
        _ => panic!("a migration was expected"),
    };
    let step = r.migration_step(&mut m, migration::Outcome::Accepted, d(0.0), d(0.0));
    assert!(matches!(step, migration::Step::Write { offset: 0, .. }));
    let step = r.migration_step(&mut m, migration::Outcome::Accepted, d(0.0), d(0.0));
    assert!(matches!(step, migration::Step::Ask { request: Request::Commit { .. }, .. }));
    // An answer that does not say what was committed.
    match r.migration_step(&mut m, migration::Outcome::Accepted, d(0.0), d(0.0)) {
        migration::Step::Ask { address, request: Request::Free { handle, direct } } => {
            assert_eq!((address, handle.id, handle.owner_node, direct), (endpoint(2), 3, 2, true));
        }
        _ => panic!("the copy is to be given back"),
    }
    match r.migration_step(&mut m, migration::Outcome::Accepted, d(0.0), d(0.0)) {
        migration::Step::Stayed { reason } => assert_eq!(reason, "protocol failure"),
        _ => panic!("the block was to stay"),
    }
    assert!(!r.ram.get(3).unwrap().busy);
    assert_eq!(r.metrics.job(71).failed_transfers, 1);
}

#[test]
fn the_last_reader_gives_the_bytes_of_a_freed_block_back() {
    let mut r = runtime(1);
    let leadership = r.leadership();
    reply(&mut r, Request::AllocateLocal { handle: handle(3, 10), leadership });
    let first = r.ram.pin(3).unwrap();
    let second = r.ram.pin(3).unwrap();
    assert!(matches!(r.ram.free(3, 1), Err(Error::LeaseDenied)));
    r.ram.free(3, 72).unwrap();
    assert!(r.ram.get(3).is_err());
    assert_eq!(r.ram.accounting.used(), 10);
    r.ram.unpin(first);
    assert_eq!(r.ram.accounting.used(), 10);
    r.ram.unpin(second);
    assert_eq!(r.ram.accounting.used(), 0);
    r.ram.free(3, 72).unwrap();
}
