use trainpool::cluster::election::elect;
use trainpool::cluster::membership::{Membership, PEER_TIMEOUT};
use trainpool::address::{SocketAddress, LOCALHOST};
use trainpool::config::Config;
use trainpool::double::Double;
use trainpool::error::{ConfigFault, Error};
use trainpool::memory::allocator::RamAccounting;
use trainpool::memory::block::{BlockState, Location, MemoryBlockHandle, TensorMetadata};
use trainpool::memory::local_ram::LocalRam;
use trainpool::memory::residency::ResidencyTable;
use trainpool::node::capabilities::{NetworkCapabilities, NodeCapabilities, RuntimeCapabilities};
use trainpool::node::cpu::CpuCapabilities;
use trainpool::node::gpu::{parse_csv, usable_vram, GpuCapabilities};
use trainpool::node::memory::MemoryCapabilities;
use trainpool::protocol::memory::LogicalTrainingMemory;
use trainpool::scheduler::placement::{CapacityPlacement, PlacementPolicy};
use trainpool::scheduler::planner::{require_cuda, CapacityPlanner, StageSpec};
use trainpool::scheduler::topology::{LinkEstimate, Topology};
use trainpool::transport::{signature, verify};

const GIB: u64 = 1024 * 1024 * 1024;

fn d(x: f64) -> Double {
    Double { bits: x.to_bits() }
}

fn memory(total: u64, available: u64, owned: u64, fraction: f64, limit: Option<u64>, reserve: u64, share: f64) -> MemoryCapabilities {
    MemoryCapabilities::calculate(
        total,
        available,
        owned,
        (total as f64 * fraction) as u64,
        limit,
        reserve,
        (total as f64 * share) as u64,
    )
}

fn node(id: u128, ram_gib: u64, gpu_gib: Option<u64>) -> NodeCapabilities {
    let mut gpus: Vec<GpuCapabilities> = vec![];
    if let Some(size) = gpu_gib {
        let mut card = GpuCapabilities::default();
        card.uuid = format!("GPU-{id}");
        card.model = "mock NVIDIA".to_string();
        card.vram_total = size * GIB;
        card.vram_free = size * GIB;
        card.usable_vram = size * GIB - 96 * 1024 * 1024;
        gpus.push(card);
    }
    let address = SocketAddress::V4 { ip: LOCALHOST, port: 7432 + id as u16 };
    NodeCapabilities {
        node_id: id,
        incarnation: id + 100,
        leader_generation: id + 1000,
        hostname: format!("node-{id}"),
        os: "mock".to_string(),
        architecture: "x86_64".to_string(),
        cpu: CpuCapabilities::default(),
        memory: memory(ram_gib * GIB, ram_gib * GIB, 0, 0.5, None, 0, 0.0),
        network: NetworkCapabilities {
            control_address: address,
            data_address: Some(address),
            transport: "mock".to_string(),
            data_transport: "udp".to_string(),
            chunk_bytes: Config::default().chunk_bytes,
            active_transfers: 0,
        },
        runtime: RuntimeCapabilities {
            gpu_compute: !gpus.is_empty(),
            ram_provider: true,
            disk_spill: false,
            version: "test".to_string(),
        },
        gpus,
    }
}

fn refs(nodes: &Vec<NodeCapabilities>) -> Vec<&NodeCapabilities> {
    nodes.iter().collect()
}

fn cost(topology: &Topology, source: u128, destination: u128, size: u64) -> f64 {
    match topology.link(source, destination) {
        Some(l) => {
            let rate = l.bytes_per_second.map(|r| f64::from_bits(r.bits)).unwrap_or(10_000_000.0).max(1.0);
            f64::from_bits(l.latency_ms.bits) / 1000.0 + size as f64 / rate * (1.0 + l.active_transfers as f64)
        }
        None => 0.01 + size as f64 / 10_000_000.0,
    }
}

fn costs(topology: &Topology, nodes: &Vec<NodeCapabilities>, source: u128, size: u64) -> Vec<Double> {
    nodes
        .iter()
        .map(|n| d(cost(topology, source, n.node_id, size) * (1.0 + n.network.active_transfers as f64)))
        .collect()
}

fn handle(id: u128, size: u64) -> MemoryBlockHandle {
    MemoryBlockHandle {
        id,
        job_id: 71,
        size,
        owner_node: 0,
        owner_incarnation: 0,
        location_type: Location::Ram { node_id: 0 },
        checksum: None,
        state: BlockState::Writing,
        lease_token: 72,
        lease_expires_ms: 10_000,
        generation: 0,
        tensor: None,
    }
}

#[test]
fn static_memory_election_and_ties() {
    let a = node(1, 64, None);
    let mut b = node(2, 32, Some(12));
    assert_eq!(elect(&[&a, &b]).leader_id, Some(a.node_id));
    b.memory.os_available_ram = 0;
    assert_eq!(elect(&[&b, &a]).leader_id, Some(a.node_id));
    let c = node(3, 52, Some(12));
    assert_eq!(elect(&[&a, &c]), elect(&[&c, &a]));
    assert_eq!(elect(&[&a, &c]).leader_id, Some(c.node_id));
    assert_eq!(elect(&[&a, &c]).election_score, 64 * GIB);
    assert_eq!(elect(&[&a, &c]).leader_epoch, c.leader_generation);
    assert_eq!(elect(&[]).leader_id, None);
}

#[test]
fn ram_budget_does_not_recursively_shrink() {
    let before = memory(32 * GIB, 16 * GIB, 0, 0.5, None, 0, 0.0);
    let allocated = memory(32 * GIB, 8 * GIB, 8 * GIB, 0.5, None, 0, 0.0);
    let pressure = memory(32 * GIB, 0, 20 * GIB, 0.5, None, 0, 0.0);
    assert_eq!(before.trainpool_ram_budget, 16 * GIB);
    assert_eq!(allocated.trainpool_ram_budget, 16 * GIB);
    assert_eq!(pressure.trainpool_ram_budget, 16 * GIB);
    assert_eq!(pressure.excess(), 4 * GIB);
    assert_eq!(pressure.trainpool_ram_available, 0);
}

#[test]
fn local_ram_budget_applies_explicit_reserve_to_live_os_headroom() {
    let sample = memory(1_000, 800, 100, 0.9, None, 100, 0.1);
    assert_eq!(sample.physical_ram_total, 1_000);
    assert_eq!(sample.os_available_ram, 800);
    assert_eq!(sample.safety_reserve, 100);
    assert_eq!(sample.trainpool_ram_budget, 800);
    assert_eq!(sample.trainpool_ram_used, 100);
    assert_eq!(sample.trainpool_ram_available, 700);
    assert_eq!(sample.safe_local_ram_allocatable_now, 700);

    let pressure = memory(1_000, 200, 600, 0.9, None, 100, 0.1);
    assert_eq!(pressure.trainpool_ram_budget, 700);
    assert_eq!(pressure.safe_local_ram_allocatable_now, 100);
}

#[test]
fn an_explicit_limit_caps_the_budget() {
    assert_eq!(memory(1_000, 800, 0, 0.9, Some(300), 100, 0.1).trainpool_ram_budget, 300);
    assert_eq!(memory(1_000, 800, 0, 0.9, Some(30_000), 100, 0.1).trainpool_ram_budget, 700);
    assert_eq!(memory(1_000, 50, 0, 0.9, None, 100, 0.1).trainpool_ram_budget, 0);
}

#[test]
fn cpu_only_leader_and_single_gpu_plan() {
    let nodes = vec![node(1, 32, Some(12)), node(2, 64, None)];
    let plan = CapacityPlanner.plan(&nodes, &elect(&refs(&nodes)), &Topology::new(), &vec![]).unwrap();
    assert_eq!(plan.leader_id, nodes[1].node_id);
    assert_eq!(plan.strategy, "SingleGpuDistributedMemory");
    assert_eq!(plan.compute_nodes, vec![nodes[0].node_id]);
    assert!(plan.memory_nodes.contains(&nodes[1].node_id));
    assert!(require_cuda(&plan, nodes[1].node_id).is_err());
    assert!(require_cuda(&plan, nodes[0].node_id).is_ok());
    assert!(nodes[1].runtime.ram_provider);
    assert!(!nodes[1].runtime.gpu_compute);
    let topology = Topology::new();
    let ranked = CapacityPlacement.rank_ram(&nodes, nodes[0].node_id, GIB, &costs(&topology, &nodes, nodes[0].node_id, GIB));
    assert_eq!(nodes[ranked[0]].node_id, nodes[0].node_id);
    assert!(ranked.iter().any(|n| nodes[*n].node_id == nodes[1].node_id));
}

#[test]
fn local_ram_is_a_strict_tier_and_remote_peers_follow_link_cost() {
    let nodes = vec![node(1, 32, Some(12)), node(2, 64, None), node(3, 64, None)];
    let compute = nodes[0].node_id;
    let mut topology = Topology::new();
    topology.update(
        LinkEstimate {
            source: compute,
            destination: nodes[1].node_id,
            latency_ms: d(20.0),
            bytes_per_second: Some(d(100_000_000.0)),
            sampled_at_ms: 1,
            active_transfers: 0,
        },
        d(0.0),
        d(0.0),
    );
    topology.update(
        LinkEstimate {
            source: compute,
            destination: nodes[2].node_id,
            latency_ms: d(1.0),
            bytes_per_second: Some(d(1_000_000_000.0)),
            sampled_at_ms: 1,
            active_transfers: 0,
        },
        d(0.0),
        d(0.0),
    );
    let ranked = CapacityPlacement.rank_ram(&nodes, compute, GIB, &costs(&topology, &nodes, compute, GIB));
    assert_eq!(nodes[ranked[0]].node_id, compute);
    assert_eq!(nodes[ranked[1]].node_id, nodes[2].node_id);
    assert_eq!(nodes[ranked[2]].node_id, nodes[1].node_id);
}

#[test]
fn nodes_without_room_are_not_ranked() {
    let mut nodes = vec![node(1, 32, None), node(2, 64, None), node(3, 64, None)];
    nodes[1].memory.trainpool_ram_available = 10;
    nodes[2].runtime.ram_provider = false;
    let topology = Topology::new();
    let ranked = CapacityPlacement.rank_ram(&nodes, 1, GIB, &costs(&topology, &nodes, 1, GIB));
    assert_eq!(ranked, vec![0]);
}

#[test]
fn unequal_gpu_stages_obey_working_set_capacity() {
    let nodes = vec![node(1, 32, Some(12)), node(2, 16, Some(4)), node(3, 16, Some(8))];
    let stages: Vec<StageSpec> =
        (0..12).map(|i| StageSpec { name: format!("L{i}"), working_set_bytes: 2 * GIB }).collect();
    let plan = CapacityPlanner.plan(&nodes, &elect(&refs(&nodes)), &Topology::new(), &stages).unwrap();
    assert_eq!(plan.gpu_assignments.len(), 1);
    assert_eq!(f64::from_bits(plan.gpu_assignments[0].capacity_share.bits), 1.0);
    assert!(plan.stages.iter().all(|s| s.node_id == nodes[0].node_id));
    assert!(plan.execution_supported);
    assert_eq!(plan.stages.len(), 12);
    assert_eq!(plan.stages[11].stage, "L11");
    let refused = CapacityPlanner.plan(
        &nodes,
        &elect(&refs(&nodes)),
        &Topology::new(),
        &vec![StageSpec { name: "too large".to_string(), working_set_bytes: 13 * GIB }],
    );
    match refused {
        Err(Error::WorkingSet { stage }) => assert_eq!(stage, "too large"),
        _ => panic!("a stage that no card holds must be refused"),
    }
}

#[test]
fn automatic_multi_gpu_plan_selects_largest_primary() {
    let nodes = vec![node(1, 32, Some(12)), node(2, 32, Some(4))];
    let plan = CapacityPlanner.plan(&nodes, &elect(&refs(&nodes)), &Topology::new(), &vec![]).unwrap();
    assert_eq!(plan.strategy, "SingleGpuDistributedMemory");
    assert!(plan.execution_supported);
    assert_eq!(plan.gpu_assignments.len(), 1);
    assert_eq!(plan.gpu_assignments[0].node_id, nodes[0].node_id);
    assert_eq!(plan.compute_nodes, vec![nodes[0].node_id]);
}

#[test]
fn leader_times_out_and_is_reelected() {
    let a = node(1, 32, None);
    let b = node(2, 64, None);
    let now = 1_000_000_000;
    let mut m = Membership::new(a.duplicate(), now);
    m.update(b.duplicate(), now);
    assert_eq!(m.leader().leader_id, Some(b.node_id));
    assert_eq!(m.nodes().len(), 2);
    assert_eq!(m.expire(now + PEER_TIMEOUT), Vec::<u128>::new());
    assert_eq!(m.expire(now + PEER_TIMEOUT + 1_000_000), vec![b.node_id]);
    assert_eq!(m.leader().leader_id, Some(a.node_id));
    assert_eq!(m.nodes().len(), 1);
}

#[test]
fn configuration_and_identity_are_safe() {
    let mut config = Config::default();
    assert_eq!(f64::from_bits(config.ram_fraction.bits), 0.90);
    assert_eq!(config.ram_reserve_bytes, GIB);
    assert_eq!(f64::from_bits(config.ram_reserve_fraction.bits), 0.10);
    assert_eq!(config.vram_reserve_bytes, 96 * 1024 * 1024);
    assert_eq!(f64::from_bits(config.vram_reserve_fraction.bits), 0.02);
    assert!(!config.disk.enabled);
    for fraction in [0.09, 0.91, f64::NAN] {
        config.ram_fraction = d(fraction);
        assert!(config.validate().is_err());
    }
    config.ram_fraction = d(0.5);
    assert!(config.validate().is_ok());
    config.disk.enabled = true;
    assert!(config.validate().is_err());
    let share = |total: u64, fraction: f64| (total as f64 * fraction) as u64;
    assert_eq!(usable_vram(500 * 1024 * 1024, 512 * 1024 * 1024, share(12 * GIB, 0.05)), 0);
    let fraction = f64::from_bits(config.vram_reserve_fraction.bits);
    assert_eq!(
        usable_vram(4 * GIB, config.vram_reserve_bytes, share(4 * GIB, fraction)),
        4 * GIB - 96 * 1024 * 1024
    );
    assert_eq!(
        usable_vram(32 * GIB, config.vram_reserve_bytes, share(32 * GIB, fraction)),
        32 * GIB - 256 * 1024 * 1024
    );
}

#[test]
fn every_setting_has_its_bounds() {
    let fault = |change: &dyn Fn(&mut Config)| {
        let mut config = Config::default();
        change(&mut config);
        match config.validate() {
            Ok(_) => None,
            Err(Error::Config { fault }) => Some(fault),
            Err(_) => panic!("a fault of the settings was expected"),
        }
    };
    assert_eq!(fault(&|_| {}), None);
    assert_eq!(fault(&|c| c.ram_fraction = d(0.95)), Some(ConfigFault::RamFraction));
    assert_eq!(fault(&|c| c.ram_fraction = d(0.10)), None);
    assert_eq!(fault(&|c| c.ram_reserve_fraction = d(-0.1)), Some(ConfigFault::RamReserveFraction));
    assert_eq!(fault(&|c| c.ram_reserve_fraction = d(-0.0)), None);
    assert_eq!(fault(&|c| c.chunk_bytes = 4095), Some(ConfigFault::ChunkBytes));
    assert_eq!(fault(&|c| c.chunk_bytes = 4096), None);
    assert_eq!(fault(&|c| c.chunk_bytes = 67108865), Some(ConfigFault::ChunkBytes));
    assert_eq!(fault(&|c| c.data_transport = "quic".to_string()), Some(ConfigFault::DataTransport));
    assert_eq!(fault(&|c| c.data_transport = "tcp".to_string()), None);
    assert_eq!(fault(&|c| c.udp_payload_bytes = 511), Some(ConfigFault::UdpPayloadBytes));
    assert_eq!(fault(&|c| c.udp_window_packets = 257), Some(ConfigFault::UdpWindowPackets));
    assert_eq!(fault(&|c| c.udp_initial_rto_ms = 9), Some(ConfigFault::UdpInitialRto));
    assert_eq!(fault(&|c| c.udp_pacing_micros = 0), Some(ConfigFault::UdpPacing));
    assert_eq!(fault(&|c| c.udp_max_retries = 65), Some(ConfigFault::UdpMaxRetries));
    assert_eq!(fault(&|c| c.udp_max_sessions = 0), Some(ConfigFault::UdpMaxSessions));
    assert_eq!(fault(&|c| c.lease_seconds = 9), Some(ConfigFault::LeaseSeconds));
    assert_eq!(fault(&|c| c.vram_reserve_fraction = d(f64::NAN)), Some(ConfigFault::VramReserveFraction));
    assert_eq!(fault(&|c| c.multicast_group = 0x0a00_0001), Some(ConfigFault::MulticastGroup));
    assert_eq!(fault(&|c| c.cluster_name = String::new()), Some(ConfigFault::ClusterName));
    assert_eq!(fault(&|c| c.cluster_name = "n".repeat(129)), Some(ConfigFault::ClusterName));
    assert_eq!(fault(&|c| c.disk.enabled = true), Some(ConfigFault::DiskSpill));
    assert_eq!(fault(&|c| c.cluster_secret = Some(String::new())), Some(ConfigFault::ClusterSecret));
}

#[test]
fn secret_authentication_detects_wrong_secret_and_tampering() {
    let mac = signature(Some("cluster secret"), b"hello");
    assert!(verify(Some("cluster secret"), b"hello", mac.as_deref()).is_ok());
    assert!(verify(Some("wrong"), b"hello", mac.as_deref()).is_err());
    assert!(verify(Some("cluster secret"), b"tampered", mac.as_deref()).is_err());
    assert!(verify(Some("cluster secret"), b"hello", None).is_err());
}

#[test]
fn signatures_are_those_of_hmac_sha256() {
    assert_eq!(
        signature(Some("Jefe"), b"what do ya want for nothing?").unwrap(),
        "5bdcc146bf60754e6a042426089575c75a003f089d2739839dec58b964ec3843"
    );
    assert_eq!(signature(None, b"hello"), None);
    assert!(verify(None, b"hello", None).is_ok());
    assert!(matches!(verify(None, b"hello", Some("00")), Err(Error::SecretMismatch)));
    assert!(matches!(verify(Some("key"), b"hello", Some("00")), Err(Error::AuthFailed)));
    assert!(verify(Some("key"), b"hello", Some("no hex")).is_err());
}

#[test]
fn tensor_metadata_rejects_overflow_and_invalid_layout() {
    let mut meta = TensorMetadata {
        dtype: "float32".to_string(),
        shape: vec![2, 3],
        layout: "contiguous".to_string(),
        byte_length: 24,
    };
    assert!(meta.validate(24).is_ok());
    meta.shape = vec![u64::MAX, 2];
    assert!(meta.validate(24).is_err());
    meta.shape = vec![2, 3];
    assert!(matches!(meta.validate(25), Err(Error::TensorSize)));
    meta.layout = "strided".to_string();
    assert!(matches!(meta.validate(24), Err(Error::TensorLayout)));
    meta.layout = "contiguous".to_string();
    meta.dtype = "float8".to_string();
    assert!(matches!(meta.validate(24), Err(Error::TensorDtype)));
}

#[test]
fn gpu_detection_accepts_missing_optional_driver_fields() {
    let config = Config::default();
    let legacy: Vec<GpuCapabilities> = parse_csv("GPU-id, Test NVIDIA, 12288, 11264, 1024, N/A, 550.0, N/A")
        .into_iter()
        .map(|row| {
            let share = (row.vram_total as f64 * f64::from_bits(config.vram_reserve_fraction.bits)) as u64;
            let utilization = row.utilization.parse::<f64>().ok().map(d);
            let temperature = row.temperature.parse::<f64>().ok().map(d);
            let capable = row.cuda_capability.as_deref().is_some_and(|s| s.parse::<f64>().is_ok());
            row.into_card(config.vram_reserve_bytes, share, utilization, temperature, capable)
        })
        .collect();
    assert_eq!(legacy.len(), 1);
    assert_eq!(legacy[0].vram_total, 12 * GIB);
    assert!(legacy[0].cuda_capability.is_none());
    assert!(legacy[0].temperature.is_none());
    assert_eq!(legacy[0].uuid, "GPU-id");
    assert_eq!(legacy[0].model, "Test NVIDIA");
    assert_eq!(legacy[0].vram_free, 11 * GIB);
    assert_eq!(legacy[0].vram_used, GIB);
    assert_eq!(legacy[0].driver_version, "550.0");
    assert!(parse_csv("driver unavailable").is_empty());
    let two = parse_csv("a,b,1,1,0,5,d,40,8.9\r\nc,d,x,1,0,5,d,40\ne,f,2,1,1,5,d,40\n");
    assert_eq!(two.len(), 2);
    assert_eq!(two[0].cuda_capability.as_deref(), Some("8.9"));
    assert_eq!(two[1].uuid, "e");
    assert_eq!(two[1].vram_used, 1024 * 1024);
}

#[test]
fn inventory_cannot_regress_leases_or_resurrect_freed_blocks() {
    let mut table = ResidencyTable::new();
    let mut handle = MemoryBlockHandle {
        id: 11,
        job_id: 12,
        size: 1,
        owner_node: 0,
        owner_incarnation: 0,
        location_type: Location::Ram { node_id: 0 },
        checksum: Some("hash".to_string()),
        state: BlockState::Ready,
        lease_token: 13,
        lease_expires_ms: 200,
        generation: 0,
        tensor: None,
    };
    table.register(handle.duplicate());
    handle.lease_expires_ms = 100;
    table.register(handle.duplicate());
    assert_eq!(table.get(handle.id).unwrap().lease_expires_ms, 200);
    handle.lease_expires_ms = 0;
    table.register(handle.duplicate());
    handle.lease_expires_ms = 300;
    table.register(handle.duplicate());
    assert_eq!(table.get(handle.id).unwrap().lease_expires_ms, 0);
}

#[test]
fn reservations_do_not_overcommit_under_concurrency() {
    let mut accounting = RamAccounting::new();
    accounting.budget = 100;
    let mut held = vec![];
    for _ in 0..20 {
        if let Ok(reservation) = accounting.reserve(10) {
            held.push(reservation);
        }
    }
    assert_eq!(held.len(), 10);
    assert_eq!(accounting.used(), 100);
    for reservation in held {
        accounting.release(reservation);
    }
    assert_eq!(accounting.used(), 0);
}

#[test]
fn ram_allocation_lifetime_and_leases() {
    let mut store = LocalRam::new();
    store.accounting.budget = 4096;
    let token = 9;
    let mut block = handle(5, 2048);
    block.lease_token = token;
    block.lease_expires_ms = trainpool::now_ms() + 10000;
    let id = block.id;
    store.allocate(block).unwrap();
    let reader = store.pin(id).unwrap();
    assert!(store.free(id, 4711).is_err());
    store.free(id, token).unwrap();
    assert_eq!(store.accounting.used(), 2048);
    store.unpin(reader);
    assert_eq!(store.accounting.used(), 0);
    let mut accounting = RamAccounting::new();
    accounting.budget = 10;
    let held = accounting.reserve(8).unwrap();
    assert!(accounting.reserve(3).is_err());
    accounting.release(held);
    assert_eq!(accounting.used(), 0);
}

#[test]
fn a_job_pays_for_its_blocks() {
    let mut store = LocalRam::new();
    store.accounting.budget = 100;
    store.allocate(handle(1, 60)).unwrap();
    assert!(matches!(store.allocate(handle(1, 1)), Err(Error::BlockExists)));
    assert!(matches!(store.allocate(handle(2, 41)), Err(Error::OutOfCapacity { bytes: 41 })));
    assert_eq!(store.accounting.jobs.get(71).unwrap().owned, 60);
    store.free(1, 72).unwrap();
    assert_eq!(store.accounting.jobs.get(71).unwrap().owned, 0);
    assert_eq!(store.accounting.jobs.get(71).unwrap().peak, 60);
    assert_eq!(store.accounting.peak, 60);
    store.free(1, 72).unwrap();
}

#[test]
fn an_expired_lease_is_worth_nothing() {
    let mut store = LocalRam::new();
    store.accounting.budget = 100;
    store.allocate(handle(1, 10)).unwrap();
    assert!(matches!(store.get(1).unwrap().authorize(73, 5), Err(Error::LeaseDenied)));
    assert!(store.get(1).unwrap().authorize(72, 9_999).is_ok());
    assert!(matches!(store.get(1).unwrap().authorize(72, 10_000), Err(Error::LeaseExpired)));
    store.expire(9_999);
    assert_eq!(store.inventory().len(), 1);
    store.expire(10_000);
    assert_eq!(store.inventory().len(), 0);
    assert_eq!(store.accounting.used(), 0);
    assert!(matches!(store.get(1), Err(Error::BlockAbsent { id: 1 })));
}

#[test]
fn inventory_is_not_executable_capacity_and_primary_ties_are_stable() {
    let mut nodes = vec![node(1, 32, Some(12)), node(2, 64, Some(12)), node(3, 16, Some(4))];
    let first = CapacityPlanner.plan(&nodes, &elect(&refs(&nodes)), &Topology::new(), &vec![]).unwrap();
    let memory = LogicalTrainingMemory::from_nodes(&nodes);
    assert_eq!(memory.cluster_physical_vram, 28 * GIB);
    assert_eq!(memory.primary_gpu_physical_vram, 12 * GIB);
    assert_eq!(memory.current_job_backing_capacity, memory.primary_gpu_usable_vram + memory.pool_ram_budget);
    assert_eq!(memory.logical_training_capacity, memory.primary_gpu_usable_vram + memory.pool_ram_allocatable);
    nodes.reverse();
    let second = CapacityPlanner.plan(&nodes, &elect(&refs(&nodes)), &Topology::new(), &vec![]).unwrap();
    assert_eq!(first.gpu_assignments[0].gpu_id, second.gpu_assignments[0].gpu_id);
    for node in &mut nodes {
        node.runtime.gpu_compute = false;
    }
    assert_eq!(LogicalTrainingMemory::from_nodes(&nodes).primary_gpu_usable_vram, 0);
}
