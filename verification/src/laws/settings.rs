//! Settings: their bounds, and what changes them.
use crate::address::{in_multicast, IpAddress, SocketAddress};
use crate::cli::settings::{changed, daemon_fault, overridden, redacted, DaemonOptions, GivenView};
use crate::config::{default_config, ConfigView};
use crate::double::Double;
use crate::text::number_within;
use vstd::prelude::*;
use vstd::utf8::encode_utf8;

verus! {

/// The number of a tenth.
pub open spec fn tenth(d: Double) -> bool {
    d.bits == 0x3fb9_9999_9999_999a
}

/// Settings are valid where each is within its bounds.
pub proof fn law_bounds_of_the_settings(c: ConfigView)
    ensures
        c.valid() <==> {
            &&& 0x3fb9_9999_9999_999a <= c.ram_fraction.bits <= 0x3fec_cccc_cccc_cccd
            &&& c.ram_reserve_fraction.bits <= 0x3fec_cccc_cccc_cccd || c.ram_reserve_fraction.bits
                == 0x8000_0000_0000_0000
            &&& c.vram_reserve_fraction.bits <= 0x3fec_cccc_cccc_cccd || c.vram_reserve_fraction.bits
                == 0x8000_0000_0000_0000
            &&& 4096 <= c.chunk_bytes <= 64 * 1024 * 1024
            &&& c.data_transport == "tcp"@ || c.data_transport == "udp"@
            &&& 512 <= c.udp_payload_bytes <= 1200
            &&& 2 <= c.udp_window_packets <= 256
            &&& 10 <= c.udp_initial_rto_ms <= 5000
            &&& 1 <= c.udp_pacing_micros <= 100_000
            &&& 1 <= c.udp_max_retries <= 64
            &&& 1 <= c.udp_max_sessions <= 4096
            &&& 10 <= c.lease_seconds <= 24 * 60 * 60
            &&& 224 * 0x100_0000 <= c.multicast_group < 240 * 0x100_0000
            &&& 1 <= encode_utf8(c.cluster_name).len() <= 128
            &&& !c.disk.enabled
            &&& c.cluster_secret matches Some(s) ==> encode_utf8(s).len() > 0
        },
{
}

/// Settings that nobody made.
pub proof fn law_settings_that_nobody_made()
    ensures
        ({
            let c = default_config();
            &&& c.cluster_name == "trainpool"@
            &&& c.cluster_secret is None
            &&& c.listen == (SocketAddress::V4 { ip: 0, port: 7432 })
            &&& c.advertise_ip is None
            &&& c.multicast_group == 239 * 0x100_0000 + 255 * 0x1_0000 + 74 * 0x100 + 32
            &&& c.discovery_port == 7433
            &&& c.multicast_interface == 0
            &&& c.discovery_enabled
            &&& c.seeds.len() == 0
            &&& c.ram_fraction.bits == 0x3fec_cccc_cccc_cccd
            &&& c.ram_reserve_bytes == 1024 * 1024 * 1024
            &&& tenth(c.ram_reserve_fraction)
            &&& c.ram_limit_bytes is None
            &&& c.chunk_bytes == 64 * 1024 * 1024
            &&& c.data_transport == "udp"@
            &&& c.udp_payload_bytes == 1200
            &&& c.udp_window_packets == 64
            &&& c.udp_initial_rto_ms == 50
            &&& c.udp_pacing_micros == 20
            &&& c.udp_max_retries == 8
            &&& c.udp_max_sessions == 128
            &&& c.lease_seconds == 300
            &&& c.vram_reserve_bytes == 96 * 1024 * 1024
            &&& c.vram_reserve_fraction.bits == 0x3f94_7ae1_47ae_147b
            &&& !c.disk.enabled
        }),
{
}

proof fn lemma_names()
    ensures
        "ram-fraction"@.len() == 12 && "ram-fraction"@[0] == 'r',
        "ram-reserve-bytes"@.len() == 17 && "ram-reserve-bytes"@[0] == 'r',
        "ram-reserve-fraction"@.len() == 20,
        "ram-limit-bytes"@.len() == 15 && "ram-limit-bytes"@[0] == 'r',
        "cluster-name"@.len() == 12 && "cluster-name"@[0] == 'c',
        "cluster-secret"@.len() == 14 && "cluster-secret"@[0] == 'c',
        "chunk-bytes"@.len() == 11,
        "data-transport"@.len() == 14 && "data-transport"@[0] == 'd',
        "udp-payload-bytes"@.len() == 17 && "udp-payload-bytes"@[0] == 'u' && "udp-payload-bytes"@[6] == 'y',
        "udp-window-packets"@.len() == 18 && "udp-window-packets"@[0] == 'u' && "udp-window-packets"@[4] == 'w',
        "udp-initial-rto-ms"@.len() == 18 && "udp-initial-rto-ms"@[0] == 'u' && "udp-initial-rto-ms"@[4] == 'i',
        "udp-pacing-micros"@.len() == 17 && "udp-pacing-micros"@[0] == 'u' && "udp-pacing-micros"@[6] == 'c',
        "udp-max-retries"@.len() == 15 && "udp-max-retries"@[0] == 'u',
        "lease-seconds"@.len() == 13,
        "vram-reserve-bytes"@.len() == 18 && "vram-reserve-bytes"@[0] == 'v',
        "vram-reserve-fraction"@.len() == 21,
        "listen"@.len() == 6,
{
    reveal_strlit("ram-fraction");
    reveal_strlit("ram-reserve-bytes");
    reveal_strlit("ram-reserve-fraction");
    reveal_strlit("ram-limit-bytes");
    reveal_strlit("cluster-name");
    reveal_strlit("cluster-secret");
    reveal_strlit("chunk-bytes");
    reveal_strlit("data-transport");
    reveal_strlit("udp-payload-bytes");
    reveal_strlit("udp-window-packets");
    reveal_strlit("udp-initial-rto-ms");
    reveal_strlit("udp-pacing-micros");
    reveal_strlit("udp-max-retries");
    reveal_strlit("lease-seconds");
    reveal_strlit("vram-reserve-bytes");
    reveal_strlit("vram-reserve-fraction");
    reveal_strlit("listen");
}

/// Setting a number sets the setting of that name to it, and no other; a value
/// that is no number, or too large, sets nothing.
pub proof fn law_numbers_are_set(c: ConfigView, g: GivenView)
    ensures
        ({
            let n = number_within(g.text, u64::MAX as nat);
            let k = number_within(g.text, usize::MAX as nat);
            let r = number_within(g.text, u32::MAX as nat);
            &&& n matches Ok(v) ==> {
                &&& changed(c, "ram-reserve-bytes"@, g) == Ok::<ConfigView, Seq<char>>(
                    ConfigView { ram_reserve_bytes: v as u64, ..c },
                )
                &&& changed(c, "ram-limit-bytes"@, g) == Ok::<ConfigView, Seq<char>>(
                    ConfigView { ram_limit_bytes: Some(v as u64), ..c },
                )
                &&& changed(c, "udp-initial-rto-ms"@, g) == Ok::<ConfigView, Seq<char>>(
                    ConfigView { udp_initial_rto_ms: v as u64, ..c },
                )
                &&& changed(c, "udp-pacing-micros"@, g) == Ok::<ConfigView, Seq<char>>(
                    ConfigView { udp_pacing_micros: v as u64, ..c },
                )
                &&& changed(c, "lease-seconds"@, g) == Ok::<ConfigView, Seq<char>>(
                    ConfigView { lease_seconds: v as u64, ..c },
                )
                &&& changed(c, "vram-reserve-bytes"@, g) == Ok::<ConfigView, Seq<char>>(
                    ConfigView { vram_reserve_bytes: v as u64, ..c },
                )
            }
            &&& k matches Ok(v) ==> {
                &&& changed(c, "chunk-bytes"@, g) == Ok::<ConfigView, Seq<char>>(ConfigView { chunk_bytes: v as usize, ..c })
                &&& changed(c, "udp-payload-bytes"@, g) == Ok::<ConfigView, Seq<char>>(
                    ConfigView { udp_payload_bytes: v as usize, ..c },
                )
                &&& changed(c, "udp-window-packets"@, g) == Ok::<ConfigView, Seq<char>>(
                    ConfigView { udp_window_packets: v as usize, ..c },
                )
            }
            &&& r matches Ok(v) ==> changed(c, "udp-max-retries"@, g) == Ok::<ConfigView, Seq<char>>(
                ConfigView { udp_max_retries: v as u32, ..c },
            )
            &&& n is Err ==> changed(c, "lease-seconds"@, g) is Err && changed(c, "ram-limit-bytes"@, g) is Err
            &&& k is Err ==> changed(c, "chunk-bytes"@, g) is Err
            &&& r is Err ==> changed(c, "udp-max-retries"@, g) is Err
        }),
{
    lemma_names();
}

/// Setting a text, a fraction or an address sets the setting of that name to it,
/// and no other.
pub proof fn law_other_values_are_set(c: ConfigView, g: GivenView)
    ensures
        changed(c, "cluster-name"@, g) == Ok::<ConfigView, Seq<char>>(ConfigView { cluster_name: g.text, ..c }),
        changed(c, "cluster-secret"@, g) == Ok::<ConfigView, Seq<char>>(ConfigView { cluster_secret: Some(g.text), ..c }),
        changed(c, "data-transport"@, g) == Ok::<ConfigView, Seq<char>>(ConfigView { data_transport: g.text, ..c }),
        g.fraction matches Ok(v) ==> {
            &&& changed(c, "ram-fraction"@, g) == Ok::<ConfigView, Seq<char>>(ConfigView { ram_fraction: v, ..c })
            &&& changed(c, "ram-reserve-fraction"@, g) == Ok::<ConfigView, Seq<char>>(
                ConfigView { ram_reserve_fraction: v, ..c },
            )
            &&& changed(c, "vram-reserve-fraction"@, g) == Ok::<ConfigView, Seq<char>>(
                ConfigView { vram_reserve_fraction: v, ..c },
            )
        },
        g.address matches Ok(v) ==> changed(c, "listen"@, g) == Ok::<ConfigView, Seq<char>>(ConfigView { listen: v, ..c }),
        g.fraction is Err ==> changed(c, "ram-fraction"@, g) is Err,
        g.address is Err ==> changed(c, "listen"@, g) is Err,
{
    lemma_names();
}

/// What the command line says goes before what was set; what it does not say
/// stays. Seeds are added, a limit counts in mebibytes, and discovery can be
/// switched off.
pub proof fn law_command_line_goes_first(c: ConfigView, o: DaemonOptions, i: int)
    ensures
        ({
            let z = overridden(c, o);
            &&& o.listen matches Some(v) ==> z.listen == v
            &&& o.listen is None ==> z.listen == c.listen
            &&& o.advertise_ip matches Some(v) ==> z.advertise_ip == Some(v)
            &&& o.advertise_ip is None ==> z.advertise_ip == c.advertise_ip
            &&& o.multicast_interface matches Some(v) ==> z.multicast_interface == v
            &&& o.multicast_interface is None ==> z.multicast_interface == c.multicast_interface
            &&& o.discovery_port matches Some(v) ==> z.discovery_port == v
            &&& o.discovery_port is None ==> z.discovery_port == c.discovery_port
            &&& z.discovery_enabled <==> c.discovery_enabled && !o.no_discovery
            &&& z.seeds.len() == c.seeds.len() + o.seed@.len()
            &&& 0 <= i < c.seeds.len() ==> z.seeds[i] == c.seeds[i]
            &&& 0 <= i < o.seed@.len() ==> z.seeds[c.seeds.len() + i] == o.seed@[i]
            &&& o.ram_limit_mib matches Some(n) ==> (n * 1_048_576 <= u64::MAX ==> z.ram_limit_bytes == Some(
                (n * 1_048_576) as u64,
            ))
            &&& o.ram_limit_mib is None ==> z.ram_limit_bytes == c.ram_limit_bytes
            &&& o.data_transport matches Some(v) ==> z.data_transport == v@
            &&& o.data_transport is None ==> z.data_transport == c.data_transport
            &&& z.cluster_secret == c.cluster_secret && z.cluster_name == c.cluster_name
            &&& z.chunk_bytes == c.chunk_bytes && z.lease_seconds == c.lease_seconds
            &&& z.ram_fraction == c.ram_fraction && z.ram_reserve_bytes == c.ram_reserve_bytes
            &&& z.multicast_group == c.multicast_group && z.disk == c.disk
            &&& z.udp_max_sessions == c.udp_max_sessions && z.udp_max_retries == c.udp_max_retries
        }),
{
}

/// A daemon starts where nothing is to be kept on disk, the limit fits in 64
/// bits, and the settings are valid.
pub proof fn law_which_daemons_start(c: ConfigView, o: DaemonOptions)
    ensures
        daemon_fault(c, o) is None <==> {
            &&& !o.enable_disk_spill
            &&& o.ram_limit_mib matches Some(n) ==> n * 1_048_576 <= u64::MAX
            &&& overridden(c, o).valid()
        },
{
}

/// Settings that are shown tell nothing of the secret but that there is one, and
/// are else as they are.
pub proof fn law_secrets_are_not_shown(c: ConfigView, one: Seq<char>, two: Seq<char>)
    ensures
        redacted(ConfigView { cluster_secret: Some(one), ..c }) == redacted(
            ConfigView { cluster_secret: Some(two), ..c },
        ),
        redacted(c).cluster_secret is Some <==> c.cluster_secret is Some,
        c.cluster_secret is None ==> redacted(c) == c,
        redacted(c) == (ConfigView { cluster_secret: redacted(c).cluster_secret, ..c }),
{
}

/// Addresses by their first number: those of groups are from 224 to 239, those
/// of the machine itself are 127; and none in particular is zero.
pub proof fn law_kinds_of_addresses(ip: u32, six: u128)
    ensures
        in_multicast(ip) <==> 224 <= ip / 0x100_0000 <= 239,
        (IpAddress::V4 { ip }).loopback() <==> ip / 0x100_0000 == 127,
        (IpAddress::V6 { ip: six }).loopback() <==> six == 1,
        (IpAddress::V4 { ip }).unspecified() <==> ip == 0,
        (IpAddress::V6 { ip: six }).unspecified() <==> six == 0,
{
}

} // verus!
