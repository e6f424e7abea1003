//! Counters of what a node has done, by job.
use crate::double::Double;
use crate::ids::Uuid;
use crate::map::IdMap;
use crate::transport::udp::TransferStats;
use vstd::prelude::*;

verus! {

/// The counters of one job. Counts of events and bytes begin again at zero
/// beyond 64 bits.
#[derive(Clone, Debug)]
pub struct JobMetrics {
    pub tensor_allocations: u64,
    pub tensor_migrations: u64,
    pub bytes_local_ram_to_gpu: u64,
    pub bytes_gpu_to_local_ram: u64,
    pub bytes_remote_ram_to_local: u64,
    pub bytes_local_to_remote_ram: u64,
    pub migration_latency_ms: Double,
    pub prefetch_hits: u64,
    pub prefetch_misses: u64,
    pub gpu_wait_for_data_ms: Double,
    pub ram_pressure_events: u64,
    pub network_bytes: u64,
    pub network_wait_ms: Double,
    pub peak_gpu_residency: u64,
    pub current_gpu_residency: u64,
    pub peak_vram_resident_bytes: u64,
    pub current_vram_resident_bytes: u64,
    pub peak_local_ram_backing_bytes: u64,
    pub current_local_ram_backing_bytes: u64,
    pub peak_remote_ram_backing_bytes: u64,
    pub current_remote_ram_backing_bytes: u64,
    pub gpu_to_local_bytes: u64,
    pub local_to_gpu_bytes: u64,
    pub gpu_to_remote_bytes: u64,
    pub remote_to_gpu_bytes: u64,
    pub remote_to_local_bytes: u64,
    pub local_to_remote_bytes: u64,
    pub eviction_count: u64,
    pub prefetch_count: u64,
    pub gpu_id: Option<String>,
    pub peak_ram_residency: u64,
    pub current_ram_residency: u64,
    pub failed_transfers: u64,
    pub transfer_sessions: u64,
    pub active_transfer_sessions: u64,
    pub udp_datagrams_sent: u64,
    pub udp_datagrams_received: u64,
    pub udp_payload_bytes: u64,
    pub udp_retransmitted_datagrams: u64,
    pub udp_retransmitted_bytes: u64,
    pub duplicate_datagrams: u64,
    pub out_of_order_datagrams: u64,
    pub ack_count: u64,
    pub nack_count: u64,
    pub tcp_connections_opened: u64,
    pub tcp_connections_reused: u64,
    pub packet_loss_estimate: Double,
    pub effective_throughput_mbps: Double,
    pub average_payload_size: Double,
    pub estimated_rtt_ms: Double,
    pub retransmission_timeout_ms: Double,
    pub sdk_metrics_timestamp_ms: Option<u64>,
    pub physical_vram_bytes: Option<u64>,
    pub driver_used_vram_bytes: Option<u64>,
    pub driver_free_vram_bytes: Option<u64>,
    pub torch_allocated_bytes: Option<u64>,
    pub torch_reserved_bytes: Option<u64>,
    pub torch_reclaimable_bytes: Option<u64>,
    pub safe_vram_allocatable_bytes: Option<u64>,
    pub configured_usable_vram_ceiling_bytes: Option<u64>,
    pub configured_vram_safety_reserve_bytes: Option<u64>,
}

/// The counters of a job that has done nothing.
pub open spec fn blank() -> JobMetrics {
    JobMetrics {
        tensor_allocations: 0,
        tensor_migrations: 0,
        bytes_local_ram_to_gpu: 0,
        bytes_gpu_to_local_ram: 0,
        bytes_remote_ram_to_local: 0,
        bytes_local_to_remote_ram: 0,
        migration_latency_ms: Double { bits: 0 },
        prefetch_hits: 0,
        prefetch_misses: 0,
        gpu_wait_for_data_ms: Double { bits: 0 },
        ram_pressure_events: 0,
        network_bytes: 0,
        network_wait_ms: Double { bits: 0 },
        peak_gpu_residency: 0,
        current_gpu_residency: 0,
        peak_vram_resident_bytes: 0,
        current_vram_resident_bytes: 0,
        peak_local_ram_backing_bytes: 0,
        current_local_ram_backing_bytes: 0,
        peak_remote_ram_backing_bytes: 0,
        current_remote_ram_backing_bytes: 0,
        gpu_to_local_bytes: 0,
        local_to_gpu_bytes: 0,
        gpu_to_remote_bytes: 0,
        remote_to_gpu_bytes: 0,
        remote_to_local_bytes: 0,
        local_to_remote_bytes: 0,
        eviction_count: 0,
        prefetch_count: 0,
        gpu_id: None,
        peak_ram_residency: 0,
        current_ram_residency: 0,
        failed_transfers: 0,
        transfer_sessions: 0,
        active_transfer_sessions: 0,
        udp_datagrams_sent: 0,
        udp_datagrams_received: 0,
        udp_payload_bytes: 0,
        udp_retransmitted_datagrams: 0,
        udp_retransmitted_bytes: 0,
        duplicate_datagrams: 0,
        out_of_order_datagrams: 0,
        ack_count: 0,
        nack_count: 0,
        tcp_connections_opened: 0,
        tcp_connections_reused: 0,
        packet_loss_estimate: Double { bits: 0 },
        effective_throughput_mbps: Double { bits: 0 },
        average_payload_size: Double { bits: 0 },
        estimated_rtt_ms: Double { bits: 0 },
        retransmission_timeout_ms: Double { bits: 0 },
        sdk_metrics_timestamp_ms: None,
        physical_vram_bytes: None,
        driver_used_vram_bytes: None,
        driver_free_vram_bytes: None,
        torch_allocated_bytes: None,
        torch_reserved_bytes: None,
        torch_reclaimable_bytes: None,
        safe_vram_allocatable_bytes: None,
        configured_usable_vram_ceiling_bytes: None,
        configured_vram_safety_reserve_bytes: None,
    }
}

impl Default for JobMetrics {
    fn default() -> (r: Self)
        ensures
            r == blank(),
    {
        JobMetrics {
            tensor_allocations: 0,
            tensor_migrations: 0,
            bytes_local_ram_to_gpu: 0,
            bytes_gpu_to_local_ram: 0,
            bytes_remote_ram_to_local: 0,
            bytes_local_to_remote_ram: 0,
            migration_latency_ms: Double { bits: 0 },
            prefetch_hits: 0,
            prefetch_misses: 0,
            gpu_wait_for_data_ms: Double { bits: 0 },
            ram_pressure_events: 0,
            network_bytes: 0,
            network_wait_ms: Double { bits: 0 },
            peak_gpu_residency: 0,
            current_gpu_residency: 0,
            peak_vram_resident_bytes: 0,
            current_vram_resident_bytes: 0,
            peak_local_ram_backing_bytes: 0,
            current_local_ram_backing_bytes: 0,
            peak_remote_ram_backing_bytes: 0,
            current_remote_ram_backing_bytes: 0,
            gpu_to_local_bytes: 0,
            local_to_gpu_bytes: 0,
            gpu_to_remote_bytes: 0,
            remote_to_gpu_bytes: 0,
            remote_to_local_bytes: 0,
            local_to_remote_bytes: 0,
            eviction_count: 0,
            prefetch_count: 0,
            gpu_id: None,
            peak_ram_residency: 0,
            current_ram_residency: 0,
            failed_transfers: 0,
            transfer_sessions: 0,
            active_transfer_sessions: 0,
            udp_datagrams_sent: 0,
            udp_datagrams_received: 0,
            udp_payload_bytes: 0,
            udp_retransmitted_datagrams: 0,
            udp_retransmitted_bytes: 0,
            duplicate_datagrams: 0,
            out_of_order_datagrams: 0,
            ack_count: 0,
            nack_count: 0,
            tcp_connections_opened: 0,
            tcp_connections_reused: 0,
            packet_loss_estimate: Double { bits: 0 },
            effective_throughput_mbps: Double { bits: 0 },
            average_payload_size: Double { bits: 0 },
            estimated_rtt_ms: Double { bits: 0 },
            retransmission_timeout_ms: Double { bits: 0 },
            sdk_metrics_timestamp_ms: None,
            physical_vram_bytes: None,
            driver_used_vram_bytes: None,
            driver_free_vram_bytes: None,
            torch_allocated_bytes: None,
            torch_reserved_bytes: None,
            torch_reclaimable_bytes: None,
            safe_vram_allocatable_bytes: None,
            configured_usable_vram_ceiling_bytes: None,
            configured_vram_safety_reserve_bytes: None,
        }
    }
}

/// `a` and `b` together, begun again at zero beyond 64 bits.
pub open spec fn plus(a: u64, b: u64) -> u64 {
    ((a + b) % 0x1_0000_0000_0000_0000) as u64
}

/// `a` less one, but not below zero.
pub open spec fn less_one(a: u64) -> u64 {
    if a == 0 {
        0
    } else {
        (a - 1) as u64
    }
}

/// `a` and `b` together, begun again at zero beyond 64 bits.
pub fn sum(a: u64, b: u64) -> (r: u64)
    ensures
        r == plus(a, b),
{
    a.wrapping_add(b)
}

/// The counters of a finished transfer on top of those of its job. Times of a
/// half that took none keep their last value.
pub open spec fn with_stats(m: JobMetrics, s: TransferStats) -> JobMetrics {
    JobMetrics {
        udp_datagrams_sent: plus(m.udp_datagrams_sent, s.datagrams_sent),
        udp_datagrams_received: plus(m.udp_datagrams_received, s.datagrams_received),
        udp_payload_bytes: plus(m.udp_payload_bytes, s.payload_bytes),
        udp_retransmitted_datagrams: plus(m.udp_retransmitted_datagrams, s.retransmitted_datagrams),
        udp_retransmitted_bytes: plus(m.udp_retransmitted_bytes, s.retransmitted_bytes),
        duplicate_datagrams: plus(m.duplicate_datagrams, s.duplicate_datagrams),
        out_of_order_datagrams: plus(m.out_of_order_datagrams, s.out_of_order_datagrams),
        ack_count: plus(m.ack_count, s.ack_count),
        nack_count: plus(m.nack_count, s.nack_count),
        estimated_rtt_ms: if s.estimated_rtt_ms.positive() {
            s.estimated_rtt_ms
        } else {
            m.estimated_rtt_ms
        },
        retransmission_timeout_ms: if s.retransmission_timeout_ms.positive() {
            s.retransmission_timeout_ms
        } else {
            m.retransmission_timeout_ms
        },
        ..m
    }
}

/// Rates on top of the counters: no loss where nothing was sent, and no new
/// average either.
pub open spec fn with_rates(m: JobMetrics, loss: Double, throughput: Double, average: Double) -> JobMetrics {
    JobMetrics {
        packet_loss_estimate: if m.udp_datagrams_sent == 0 {
            Double { bits: 0 }
        } else {
            loss
        },
        effective_throughput_mbps: throughput,
        average_payload_size: if m.udp_datagrams_sent > 0 {
            average
        } else {
            m.average_payload_size
        },
        ..m
    }
}

impl JobMetrics {
    /// Adds the counters of a finished transfer.
    pub fn apply_udp_stats(&mut self, stats: &TransferStats)
        ensures
            *final(self) == with_stats(*old(self), *stats),
    {
        self.udp_datagrams_sent = sum(self.udp_datagrams_sent, stats.datagrams_sent);
        self.udp_datagrams_received = sum(self.udp_datagrams_received, stats.datagrams_received);
        self.udp_payload_bytes = sum(self.udp_payload_bytes, stats.payload_bytes);
        self.udp_retransmitted_datagrams = sum(self.udp_retransmitted_datagrams, stats.retransmitted_datagrams);
        self.udp_retransmitted_bytes = sum(self.udp_retransmitted_bytes, stats.retransmitted_bytes);
        self.duplicate_datagrams = sum(self.duplicate_datagrams, stats.duplicate_datagrams);
        self.out_of_order_datagrams = sum(self.out_of_order_datagrams, stats.out_of_order_datagrams);
        self.ack_count = sum(self.ack_count, stats.ack_count);
        self.nack_count = sum(self.nack_count, stats.nack_count);
        if stats.estimated_rtt_ms.is_positive() {
            self.estimated_rtt_ms = stats.estimated_rtt_ms;
        }
        if stats.retransmission_timeout_ms.is_positive() {
            self.retransmission_timeout_ms = stats.retransmission_timeout_ms;
        }
    }

    /// Takes over rates that were computed from the counters as they are:
    /// datagrams sent again per datagram sent, the throughput of the last
    /// transfer, and payload per datagram.
    pub fn apply_rates(&mut self, loss: Double, throughput: Double, average: Double)
        ensures
            *final(self) == with_rates(*old(self), loss, throughput, average),
    {
        self.packet_loss_estimate = if self.udp_datagrams_sent == 0 {
            Double { bits: 0 }
        } else {
            loss
        };
        self.effective_throughput_mbps = throughput;
        if self.udp_datagrams_sent > 0 {
            self.average_payload_size = average;
        }
    }
}

/// The counters of every job.
pub struct Metrics {
    pub jobs: IdMap<JobMetrics>,
}

impl View for Metrics {
    type V = Map<Uuid, JobMetrics>;

    open spec fn view(&self) -> Map<Uuid, JobMetrics> {
        self.jobs@
    }
}

/// The counters of a job, which start blank.
pub open spec fn job_of(m: Map<Uuid, JobMetrics>, id: Uuid) -> JobMetrics {
    if m.contains_key(id) {
        m[id]
    } else {
        blank()
    }
}

impl Metrics {
    pub open spec fn wf(&self) -> bool {
        self.jobs.wf()
    }

    pub fn new() -> (r: Self)
        ensures
            r.wf(),
            r@ == Map::<Uuid, JobMetrics>::empty(),
    {
        Metrics { jobs: IdMap::new() }
    }

    /// The counters of a job, for changing.
    pub fn job(&mut self, id: Uuid) -> (m: &mut JobMetrics)
        requires
            old(self).wf(),
        ensures
            *m == job_of(old(self)@, id),
            final(self).wf(),
            final(self)@ == old(self)@.insert(id, *final(m)),
    {
        let ghost before = self@;
        let at: usize = match self.jobs.find(id) {
            Some(p) => p,
            None => {
                let _ = self.jobs.insert(id, JobMetrics::default());
                match self.jobs.find(id) {
                    Some(p) => p,
                    None => {
                        assert(false);
                        0
                    },
                }
            },
        };
        let m = self.jobs.value_mut(at);
        assert(before.insert(id, *final(m)) =~= before.insert(id, blank()).insert(id, *final(m)));
        m
    }
}

} // verus!
