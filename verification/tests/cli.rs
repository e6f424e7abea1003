use trainpool::address::{SocketAddress, LOCALHOST};
use trainpool::cli::report::{leader_report, memory_report, nodes_report, report};
use trainpool::cli::settings::{DaemonOptions, Given};
use trainpool::cli::{
    client_address, format_bytes, format_sdk_metric, request_for, shown_as_links, shown_raw, ConfigCommand, Query,
};
use trainpool::cluster::election::Leadership;
use trainpool::config::Config;
use trainpool::double::Double;
use trainpool::error::Error;
use trainpool::launcher::{exit_code, is_python, plan_job, program_check, Attempt, Launch, Seek};
use trainpool::node::capabilities::{available_ram, Found, NodeCapabilities};
use trainpool::node::gpu::GpuCapabilities;
use trainpool::protocol::memory::LogicalTrainingMemory;
use trainpool::protocol::request::{ClusterStatus, Request};
use trainpool::runtime::MemorySample;
use trainpool::scheduler::topology::Topology;

fn local(port: u16) -> SocketAddress {
    SocketAddress::V4 { ip: LOCALHOST, port }
}

#[test]
fn byte_sizes_use_familiar_decimal_units() {
    assert_eq!(format_bytes(999), "999 B");
    assert_eq!(format_bytes(1_000), "1.00 KB");
    assert_eq!(format_bytes(1_500_000), "1.50 MB");
    assert_eq!(format_bytes(16_659_828_736), "16.66 GB");
    assert_eq!(format_bytes(2_500_000_000_000), "2.50 TB");
}

#[test]
fn sizes_are_rounded_as_doubles_are() {
    let expected = |bytes: u64| {
        for (unit, divisor) in
            [("TB", 1_000_000_000_000u64), ("GB", 1_000_000_000), ("MB", 1_000_000), ("KB", 1_000)]
        {
            if bytes >= divisor {
                return format!("{:.2} {unit}", bytes as f64 / divisor as f64);
            }
        }
        format!("{bytes} B")
    };
    let mut state: u64 = 88172645463325252;
    let mut cases: Vec<u64> = vec![
        0, 1, 1_004, 1_005, 1_014, 1_015, 1_025, 1_035, 1_045, 999_994, 999_995, 999_999, 1_000_000, 2_345_000, 10_045_000,
        10_055_000, 1_000_000_000, u64::MAX, u64::MAX - 1, 1 << 53, (1 << 53) + 1, (1 << 54) + 2, (1 << 54) + 6, (1 << 63) + 1024,
    ];
    for shift in 0..64 {
        for _ in 0..40 {
            state ^= state << 13;
            state ^= state >> 7;
            state ^= state << 17;
            cases.push(state >> shift);
        }
        cases.push(1 << shift);
    }
    for thousandths in 1_000..3_000 {
        cases.push(thousandths);
        cases.push(thousandths * 1_000);
        cases.push(thousandths * 1_000_000);
    }
    for bytes in cases {
        assert_eq!(format_bytes(bytes), expected(bytes), "{bytes}");
        if bytes > 5_000 {
            assert_eq!(
                format_sdk_metric(Some(7), Some(bytes)),
                format!("STALE (age {:.2} s)", bytes as f64 / 1000.0)
            );
        }
    }
}

#[test]
fn stale_sdk_metrics_are_never_rendered_as_zero() {
    assert_eq!(format_sdk_metric(None, None), "UNKNOWN");
    assert_eq!(format_sdk_metric(Some(0), Some(12_400)), "STALE (age 12.40 s)");
    assert_eq!(format_sdk_metric(Some(0), Some(320)), "0 B (age 320 ms)");
    assert_eq!(format_sdk_metric(None, Some(320)), "UNKNOWN");
    assert_eq!(format_sdk_metric(Some(5), None), "UNKNOWN");
    assert_eq!(format_sdk_metric(Some(2_000), Some(5_000)), "2.00 KB (age 5000 ms)");
}

fn given(text: &str) -> Given {
    Given {
        text: text.to_string(),
        fraction: match text.parse::<f64>() {
            Ok(x) => Ok(Double { bits: x.to_bits() }),
            Err(e) => Err(e.to_string()),
        },
        address: if text == "127.0.0.1:9" { Ok(local(9)) } else { Err("invalid socket address syntax".to_string()) },
    }
}

#[test]
fn settings_are_set_by_their_names() {
    let mut c = Config::default();
    c.apply_setting("ram-fraction", &given("0.25")).unwrap();
    assert_eq!(f64::from_bits(c.ram_fraction.bits), 0.25);
    c.apply_setting("ram-reserve-bytes", &given("5")).unwrap();
    assert_eq!(c.ram_reserve_bytes, 5);
    c.apply_setting("ram-reserve-fraction", &given("0.5")).unwrap();
    assert_eq!(f64::from_bits(c.ram_reserve_fraction.bits), 0.5);
    c.apply_setting("ram-limit-bytes", &given("+6")).unwrap();
    assert_eq!(c.ram_limit_bytes, Some(6));
    c.apply_setting("cluster-name", &given("lab")).unwrap();
    assert_eq!(c.cluster_name, "lab");
    c.apply_setting("cluster-secret", &given("s")).unwrap();
    assert_eq!(c.cluster_secret.as_deref(), Some("s"));
    c.apply_setting("chunk-bytes", &given("8192")).unwrap();
    assert_eq!(c.chunk_bytes, 8192);
    c.apply_setting("data-transport", &given("tcp")).unwrap();
    assert_eq!(c.data_transport, "tcp");
    c.apply_setting("udp-payload-bytes", &given("600")).unwrap();
    assert_eq!(c.udp_payload_bytes, 600);
    c.apply_setting("udp-window-packets", &given("9")).unwrap();
    assert_eq!(c.udp_window_packets, 9);
    c.apply_setting("udp-initial-rto-ms", &given("11")).unwrap();
    assert_eq!(c.udp_initial_rto_ms, 11);
    c.apply_setting("udp-pacing-micros", &given("12")).unwrap();
    assert_eq!(c.udp_pacing_micros, 12);
    c.apply_setting("udp-max-retries", &given("13")).unwrap();
    assert_eq!(c.udp_max_retries, 13);
    c.apply_setting("lease-seconds", &given("14")).unwrap();
    assert_eq!(c.lease_seconds, 14);
    c.apply_setting("vram-reserve-bytes", &given("15")).unwrap();
    assert_eq!(c.vram_reserve_bytes, 15);
    c.apply_setting("vram-reserve-fraction", &given("0.75")).unwrap();
    assert_eq!(f64::from_bits(c.vram_reserve_fraction.bits), 0.75);
    c.apply_setting("listen", &given("127.0.0.1:9")).unwrap();
    assert_eq!(c.listen, local(9));
    assert!(c.validate().is_ok());
}

#[test]
fn values_that_are_not_numbers_are_refused_with_the_reason() {
    let mut c = Config::default();
    let mut why = |key: &str, text: &str| c.apply_setting(key, &given(text)).unwrap_err().message();
    assert_eq!(why("colour", "red"), "unknown configuration key: colour");
    for text in ["", "+", "-1", "1x", "18446744073709551616", "99999999999999999999x", "1 "] {
        assert_eq!(why("lease-seconds", text), text.parse::<u64>().unwrap_err().to_string());
    }
    assert_eq!(why("udp-max-retries", "4294967296"), "number too large to fit in target type");
    assert_eq!(why("ram-fraction", "half"), "invalid float literal");
    assert_eq!(why("listen", "here"), "invalid socket address syntax");
    assert_eq!(c.lease_seconds, 300);
}

#[test]
fn the_secret_is_not_shown_and_bad_settings_are_not_saved() {
    let mut c = Config::default();
    c.redact();
    assert_eq!(c.cluster_secret, None);
    c.cluster_secret = Some("SECRET-REDACTED".to_string());
    let no = || Err::<Double, String>("no".to_string());
    let nowhere = || Err::<SocketAddress, String>("no".to_string());
    assert!(!c.configure(ConfigCommand::Show, no(), nowhere()).unwrap());
    assert_eq!(c.cluster_secret.as_deref(), Some("<redacted>"));
    let change = |key: &str, value: &str| ConfigCommand::Change { key: key.to_string(), value: value.to_string() };
    assert!(c.configure(change("lease-seconds", "20"), no(), nowhere()).unwrap());
    assert_eq!(c.lease_seconds, 20);
    let refused = c.configure(change("lease-seconds", "5"), no(), nowhere());
    assert_eq!(refused.unwrap_err().message(), "lease-seconds must be 10..86400");
    assert_eq!(c.lease_seconds, 5);
    assert!(c.configure(change("lease-seconds", "soon"), no(), nowhere()).is_err());
    assert!(c.configure(change("lease", "20"), no(), nowhere()).is_err());
    assert_eq!(c.lease_seconds, 5);
    assert_eq!(c.cluster_secret.as_deref(), Some("<redacted>"));
}

fn options() -> DaemonOptions {
    DaemonOptions {
        listen: None,
        advertise_ip: None,
        multicast_interface: None,
        discovery_port: None,
        no_discovery: false,
        seed: vec![],
        ram_limit_mib: None,
        data_transport: None,
        enable_disk_spill: false,
    }
}

#[test]
fn a_daemon_takes_what_the_command_line_says() {
    let mut c = Config::default();
    c.seeds = vec![local(1)];
    c.apply_daemon_options(DaemonOptions {
        listen: Some(local(2)),
        advertise_ip: Some(3),
        multicast_interface: Some(4),
        discovery_port: Some(5),
        no_discovery: true,
        seed: vec![local(6), local(7)],
        ram_limit_mib: Some(8),
        data_transport: Some("tcp".to_string()),
        enable_disk_spill: false,
    })
    .unwrap();
    assert_eq!(c.listen, local(2));
    assert_eq!(c.advertise_ip, Some(3));
    assert_eq!(c.multicast_interface, 4);
    assert_eq!(c.discovery_port, 5);
    assert!(!c.discovery_enabled);
    assert_eq!(c.seeds, vec![local(1), local(6), local(7)]);
    assert_eq!(c.ram_limit_bytes, Some(8 * 1024 * 1024));
    assert_eq!(c.data_transport, "tcp");

    let mut c = Config::default();
    c.apply_daemon_options(options()).unwrap();
    assert_eq!(c.discovery_port, 7433);
    assert!(c.discovery_enabled);
    let mut spill = options();
    spill.enable_disk_spill = true;
    assert!(matches!(c.apply_daemon_options(spill), Err(Error::SpillDisabled)));
    let mut large = options();
    large.ram_limit_mib = Some(1 << 44);
    assert!(matches!(c.apply_daemon_options(large), Err(Error::RamLimitOverflow)));
    let mut other = options();
    other.data_transport = Some("quic".to_string());
    assert_eq!(c.apply_daemon_options(other).unwrap_err().message(), "data-transport must be tcp or udp");
}

#[test]
fn questions_become_requests() {
    assert_eq!(client_address(None, SocketAddress::V4 { ip: 0, port: 7432 }), local(7432));
    assert_eq!(client_address(None, local(5)), local(5));
    assert_eq!(client_address(Some(local(6)), local(5)), local(6));
    assert!(matches!(request_for(Query::Nodes), Ok(Request::Status)));
    assert!(matches!(request_for(Query::Topology), Ok(Request::Topology)));
    assert!(matches!(request_for(Query::Metrics), Ok(Request::Metrics)));
    assert!(matches!(request_for(Query::Benchmark { mib: 3 }), Ok(Request::Benchmark { bytes: 3145728 })));
    assert!(matches!(request_for(Query::Benchmark { mib: usize::MAX }), Err(Error::BenchmarkOverflow)));
    match request_for(Query::Plan) {
        Ok(Request::Plan { stages }) => assert!(stages.is_empty()),
        _ => panic!("a plan was asked for"),
    }
    assert!(shown_raw(Query::Metrics, false));
    assert!(shown_raw(Query::Plan, false));
    assert!(!shown_raw(Query::Status, false));
    assert!(shown_raw(Query::Status, true));
    assert!(shown_as_links(Query::Topology));
    assert!(shown_as_links(Query::Benchmark { mib: 1 }));
    assert!(!shown_as_links(Query::Memory));
}

fn detected() -> NodeCapabilities {
    let mut card = GpuCapabilities::default();
    card.model = "RTX".to_string();
    card.vram_total = 12_000_000_000;
    let mut second = GpuCapabilities::default();
    second.model = "GTX".to_string();
    second.vram_total = 4_000_000_000;
    NodeCapabilities::detect(
        0x10,
        local(7432),
        &Config::default(),
        Found {
            hostname: None,
            os: "linux".to_string(),
            architecture: "x86_64".to_string(),
            cpu_model: None,
            physical_cores: None,
            logical_cores: 8,
            total_ram: 32_000_000_000,
            gpus: vec![card, second],
            version: "0.1.0".to_string(),
        },
        0x11,
        0x12,
        MemorySample { available: 16_000_000_000, ceiling: 28_800_000_000, reserve_share: 3_200_000_000 },
    )
}

#[test]
fn a_node_is_made_of_what_its_system_says() {
    let n = detected();
    assert_eq!(n.hostname, "00000000-0000-0000-0000-000000000010");
    assert_eq!(n.cpu.model, "unknown");
    assert_eq!(n.cpu.physical_cores, 0);
    assert_eq!(n.cpu.logical_cores, 8);
    assert_eq!(n.memory.trainpool_ram_budget, 12_800_000_000);
    assert_eq!(n.network.transport, "framed-tcp-control");
    assert_eq!(n.network.data_transport, "udp");
    assert_eq!(n.network.data_address, Some(local(7432)));
    assert!(n.runtime.gpu_compute);
    assert!(n.runtime.ram_provider);
    assert_eq!(available_ram(10, None), 10);
    assert_eq!(available_ram(10, Some(4)), 4);
    assert_eq!(available_ram(10, Some(40)), 10);
}

fn status() -> ClusterStatus {
    let mut memory = LogicalTrainingMemory::default();
    memory.physical_vram = 16_000_000_000;
    memory.free_vram = 6_000_000_000;
    memory.local_pool_ram_used = 5_000;
    memory.sdk_metrics_age_ms = Some(10);
    memory.torch_reserved_bytes = Some(3_000_000);
    ClusterStatus {
        local_node: 0x10,
        leadership: Leadership { leader_id: Some(0x10), leader_epoch: 0x12, election_score: 48_000_000_000 },
        nodes: vec![detected()],
        logical_memory: memory,
        topology: Topology::new(),
        chunk_bytes: 4096,
        lease_seconds: 300,
    }
}

#[test]
fn the_cluster_is_shown_line_by_line() {
    let s = status();
    let addresses = vec!["127.0.0.1:7432".to_string()];
    let nodes = nodes_report(&s.nodes, s.leadership.leader_id, &addresses);
    assert_eq!(nodes[0], "NODE             ROLE    CPU     RAM         POOL RAM    GPU / PHYSICAL VRAM");
    assert_eq!(
        nodes[1],
        format!(
            "{:<16} {:<7} {:>3}c    {:<11} {:<11} {}",
            s.nodes[0].hostname, "leader", 8, "32.00 GB", "12.80 GB", "RTX / 12.00 GB, GTX / 4.00 GB"
        )
    );
    assert_eq!(nodes[2], "  00000000-0000-0000-0000-000000000010  127.0.0.1:7432");
    let mut plain = s.nodes[0].duplicate();
    plain.gpus.clear();
    plain.hostname = "worker".to_string();
    let alone = nodes_report(&vec![plain], None, &addresses);
    assert_eq!(alone[1], "worker           peer      8c    32.00 GB    12.80 GB    none (RAM provider)");
    assert_eq!(
        leader_report(&s.leadership),
        vec![
            "Leader: 00000000-0000-0000-0000-000000000010".to_string(),
            "Election score: 48.00 GB".to_string(),
            "Reason: highest total physical RAM + physical VRAM; largest UUID breaks ties".to_string(),
            "Leader epoch: 00000000-0000-0000-0000-000000000012".to_string(),
        ]
    );
    assert_eq!(leader_report(&Leadership::default())[0], "Leader: none");
    let memory = memory_report(&s.logical_memory);
    assert_eq!(memory.len(), 12 + 9 + 12 + 2);
    assert_eq!(memory[2], format!("{:<39} {}", "GPU driver used (daemon snapshot)", "10.00 GB"));
    assert_eq!(memory[12], "");
    assert_eq!(memory[13], "LOCAL COMPUTE-NODE RAM");
    assert_eq!(memory[17], format!("{:<39} {}", "TrainPool local RAM used", "5.00 KB"));
    assert_eq!(memory[22], "PYTORCH SDK CUDA SNAPSHOT");
    assert_eq!(memory[23], format!("{:<39} {}", "GPU physical VRAM", "UNKNOWN"));
    assert_eq!(memory[27], format!("{:<39} {}", "PyTorch reserved", "3.00 MB (age 10 ms)"));
    assert_eq!(memory[33], "Disk spill: DISABLED");
    assert_eq!(report(Query::Nodes, &s, &addresses), nodes);
    assert_eq!(report(Query::Memory, &s, &addresses), memory);
    assert_eq!(report(Query::Leader, &s, &addresses).len(), 4);
    assert_eq!(report(Query::Status, &s, &addresses).len(), 3 + 4 + 35);
    assert!(report(Query::Plan, &s, &addresses).is_empty());
}

#[test]
fn interpreters_are_known_by_their_names() {
    for name in ["python", "PYTHON", "python3", "Python3.12", "pypy", "pypy3"] {
        assert!(is_python(Some(name)), "{name}");
    }
    for name in ["python2", "pythonw", "bash", "", "ipython"] {
        assert!(!is_python(Some(name)), "{name}");
    }
    assert!(!is_python(None));
}

#[test]
fn exit_codes_are_those_of_a_shell() {
    assert_eq!(exit_code(Some(3), None), 3);
    assert_eq!(exit_code(None, Some(9)), 137);
    assert_eq!(exit_code(None, None), 129);
}

fn failed(why: &str) -> Attempt {
    Attempt::Failed { why: why.to_string() }
}

#[test]
fn a_running_daemon_is_used_and_none_is_started_beside_it() {
    let mut l = Launch::new(local(1), "127.0.0.1:1".to_string(), true);
    assert!(matches!(l.next(Attempt::Worked), Ok(Seek::Found { started: false })));
    let mut l = Launch::new(local(1), "127.0.0.1:1".to_string(), true);
    assert!(matches!(l.next(failed("secret")), Ok(Seek::Knock)));
    assert_eq!(
        l.next(Attempt::Worked).unwrap_err().message(),
        "TRAINPOOL_LOCAL_DAEMON_UNAVAILABLE: a process is listening on 127.0.0.1:1, but TrainPool could not use it (port occupied or authentication mismatch): secret"
    );
}

#[test]
fn a_runtime_is_started_only_on_this_machine_and_asked_a_while() {
    let far = SocketAddress::V4 { ip: 0x0a00_0001, port: 1 };
    let mut l = Launch::new(far, "10.0.0.1:1".to_string(), true);
    l.next(failed("refused")).unwrap();
    assert_eq!(
        l.next(failed("refused")).unwrap_err().message(),
        "TRAINPOOL_LOCAL_DAEMON_UNAVAILABLE: refusing to embed a runtime for non-loopback address 10.0.0.1:1"
    );
    let started = |discovery: bool| {
        let mut l = Launch::new(local(1), "127.0.0.1:1".to_string(), discovery);
        l.next(failed("refused")).unwrap();
        assert!(matches!(l.next(failed("refused")), Ok(Seek::Start)));
        l
    };
    let mut l = started(true);
    assert!(matches!(l.next(Attempt::Worked), Ok(Seek::Ask { after: 2200 })));
    assert!(matches!(l.next(Attempt::Worked), Ok(Seek::Found { started: true })));
    let mut l = started(false);
    assert!(matches!(l.next(Attempt::Worked), Ok(Seek::Ask { after: 0 })));
    for _ in 0..19 {
        assert!(matches!(l.next(failed("not yet")), Ok(Seek::Ask { after: 25 })));
    }
    assert_eq!(
        l.next(failed("never")).unwrap_err().message(),
        "TRAINPOOL_LOCAL_DAEMON_START_FAILED: local runtime did not become ready: never"
    );
    let mut l = started(false);
    assert!(matches!(l.next(failed("in use")), Ok(Seek::Ask { after: 0 })));
    assert!(matches!(l.next(Attempt::Worked), Ok(Seek::Found { started: false })));
    let mut l = started(false);
    l.next(failed("in use")).unwrap();
    assert_eq!(
        l.next(failed("gone")).unwrap_err().message(),
        "TRAINPOOL_LOCAL_DAEMON_START_FAILED: could not start the local runtime on 127.0.0.1:1: in use"
    );
}

#[test]
fn an_embedded_runtime_listens_where_it_is_asked_for() {
    let mut c = Config::default();
    c.embed(local(7432));
    assert_eq!(c.listen, SocketAddress::V4 { ip: 0, port: 7432 });
    assert_eq!(c.advertise_ip, None);
    c.embed(local(99));
    assert_eq!(c.listen, local(99));
    assert_eq!(c.advertise_ip, Some(LOCALHOST));
    c.embed(SocketAddress::V6 { ip: 1, port: 98, flowinfo: 0, scope_id: 0 });
    assert_eq!(c.advertise_ip, Some(LOCALHOST));
    assert!(matches!(program_check(0), Err(Error::MissingProgram)));
    assert!(program_check(1).is_ok());
    assert_eq!(plan_job(Some("j".to_string())).unwrap(), "j");
    assert!(matches!(plan_job(None), Err(Error::InvalidPlan)));
}

#[test]
fn the_clock_counts_from_the_epoch() {
    assert_eq!(trainpool::epoch_millis(None), 0);
    assert_eq!(trainpool::epoch_millis(Some(17)), 17);
    assert_eq!(trainpool::epoch_millis(Some(1 << 64)), 0);
    assert!(trainpool::now_ms() > 1_600_000_000_000);
}
