//! Settings that the command line changes.
use crate::address::{Ipv4, SocketAddress};
use crate::cli::ConfigCommand;
use crate::config::{Config, ConfigView, MIB};
use crate::double::Double;
use crate::error::Error;
use crate::text::{number_within, read_number, same_text};
use vstd::prelude::*;

verus! {

/// What a value is in the forms that a setting may ask for. A form that it does
/// not have comes with the reason.
pub struct Given {
    pub text: String,
    pub fraction: Result<Double, String>,
    pub address: Result<SocketAddress, String>,
}

/// The model of a [`Given`].
pub struct GivenView {
    pub text: Seq<char>,
    pub fraction: Result<Double, Seq<char>>,
    pub address: Result<SocketAddress, Seq<char>>,
}

impl View for Given {
    type V = GivenView;

    open spec fn view(&self) -> GivenView {
        GivenView {
            text: self.text@,
            fraction: match self.fraction {
                Ok(value) => Ok(value),
                Err(why) => Err(why@),
            },
            address: match self.address {
                Ok(value) => Ok(value),
                Err(why) => Err(why@),
            },
        }
    }
}

impl GivenView {
    /// The value as a number up to a limit, or what is wrong with it.
    pub open spec fn number(self, limit: nat) -> Result<nat, Seq<char>> {
        match number_within(self.text, limit) {
            Ok(n) => Ok(n),
            Err(e) => Err(e.text()),
        }
    }
}

/// The settings after one was set, or the text of what is wrong with it.
pub open spec fn changed(c: ConfigView, key: Seq<char>, g: GivenView) -> Result<ConfigView, Seq<char>> {
    if key == "ram-fraction"@ {
        match g.fraction {
            Ok(v) => Ok(ConfigView { ram_fraction: v, ..c }),
            Err(why) => Err(why),
        }
    } else if key == "ram-reserve-bytes"@ {
        match g.number(u64::MAX as nat) {
            Ok(n) => Ok(ConfigView { ram_reserve_bytes: n as u64, ..c }),
            Err(why) => Err(why),
        }
    } else if key == "ram-reserve-fraction"@ {
        match g.fraction {
            Ok(v) => Ok(ConfigView { ram_reserve_fraction: v, ..c }),
            Err(why) => Err(why),
        }
    } else if key == "ram-limit-bytes"@ {
        match g.number(u64::MAX as nat) {
            Ok(n) => Ok(ConfigView { ram_limit_bytes: Some(n as u64), ..c }),
            Err(why) => Err(why),
        }
    } else if key == "cluster-name"@ {
        Ok(ConfigView { cluster_name: g.text, ..c })
    } else if key == "cluster-secret"@ {
        Ok(ConfigView { cluster_secret: Some(g.text), ..c })
    } else if key == "chunk-bytes"@ {
        match g.number(usize::MAX as nat) {
            Ok(n) => Ok(ConfigView { chunk_bytes: n as usize, ..c }),
            Err(why) => Err(why),
        }
    } else if key == "data-transport"@ {
        Ok(ConfigView { data_transport: g.text, ..c })
    } else if key == "udp-payload-bytes"@ {
        match g.number(usize::MAX as nat) {
            Ok(n) => Ok(ConfigView { udp_payload_bytes: n as usize, ..c }),
            Err(why) => Err(why),
        }
    } else if key == "udp-window-packets"@ {
        match g.number(usize::MAX as nat) {
            Ok(n) => Ok(ConfigView { udp_window_packets: n as usize, ..c }),
            Err(why) => Err(why),
        }
    } else if key == "udp-initial-rto-ms"@ {
        match g.number(u64::MAX as nat) {
            Ok(n) => Ok(ConfigView { udp_initial_rto_ms: n as u64, ..c }),
            Err(why) => Err(why),
        }
    } else if key == "udp-pacing-micros"@ {
        match g.number(u64::MAX as nat) {
            Ok(n) => Ok(ConfigView { udp_pacing_micros: n as u64, ..c }),
            Err(why) => Err(why),
        }
    } else if key == "udp-max-retries"@ {
        match g.number(u32::MAX as nat) {
            Ok(n) => Ok(ConfigView { udp_max_retries: n as u32, ..c }),
            Err(why) => Err(why),
        }
    } else if key == "lease-seconds"@ {
        match g.number(u64::MAX as nat) {
            Ok(n) => Ok(ConfigView { lease_seconds: n as u64, ..c }),
            Err(why) => Err(why),
        }
    } else if key == "vram-reserve-bytes"@ {
        match g.number(u64::MAX as nat) {
            Ok(n) => Ok(ConfigView { vram_reserve_bytes: n as u64, ..c }),
            Err(why) => Err(why),
        }
    } else if key == "vram-reserve-fraction"@ {
        match g.fraction {
            Ok(v) => Ok(ConfigView { vram_reserve_fraction: v, ..c }),
            Err(why) => Err(why),
        }
    } else if key == "listen"@ {
        match g.address {
            Ok(v) => Ok(ConfigView { listen: v, ..c }),
            Err(why) => Err(why),
        }
    } else {
        Err("unknown configuration key: "@ + key)
    }
}

/// What the command line tells a daemon.
pub struct DaemonOptions {
    pub listen: Option<SocketAddress>,
    pub advertise_ip: Option<Ipv4>,
    pub multicast_interface: Option<Ipv4>,
    pub discovery_port: Option<u16>,
    pub no_discovery: bool,
    pub seed: Vec<SocketAddress>,
    pub ram_limit_mib: Option<u64>,
    pub data_transport: Option<String>,
    pub enable_disk_spill: bool,
}

/// The settings of a daemon that was told so on the command line, where the
/// limit on RAM is not too large.
pub open spec fn overridden(c: ConfigView, o: DaemonOptions) -> ConfigView {
    ConfigView {
        listen: match o.listen {
            Some(v) => v,
            None => c.listen,
        },
        advertise_ip: match o.advertise_ip {
            Some(v) => Some(v),
            None => c.advertise_ip,
        },
        multicast_interface: match o.multicast_interface {
            Some(v) => v,
            None => c.multicast_interface,
        },
        discovery_port: match o.discovery_port {
            Some(v) => v,
            None => c.discovery_port,
        },
        discovery_enabled: c.discovery_enabled && !o.no_discovery,
        seeds: c.seeds + o.seed@,
        ram_limit_bytes: match o.ram_limit_mib {
            Some(mib) => Some((mib * MIB) as u64),
            None => c.ram_limit_bytes,
        },
        data_transport: match o.data_transport {
            Some(v) => v@,
            None => c.data_transport,
        },
        ..c
    }
}

/// What is wrong with the settings of a daemon.
pub open spec fn daemon_fault(c: ConfigView, o: DaemonOptions) -> Option<Error> {
    if o.enable_disk_spill {
        Some(Error::SpillDisabled)
    } else if o.ram_limit_mib is Some && o.ram_limit_mib->0 * MIB > u64::MAX {
        Some(Error::RamLimitOverflow)
    } else {
        match overridden(c, o).fault() {
            Some(fault) => Some(Error::Config { fault }),
            None => None,
        }
    }
}

/// Settings as they are shown: without the secret.
pub open spec fn redacted(c: ConfigView) -> ConfigView {
    ConfigView {
        cluster_secret: match c.cluster_secret {
            Some(secret) => Some("<redacted>"@),
            None => None,
        },
        ..c
    }
}

fn number(given: &Given, limit: u64) -> (r: Result<u64, Error>)
    ensures
        match r {
            Ok(n) => given@.number(limit as nat) == Ok::<nat, Seq<char>>(n as nat) && n <= limit,
            Err(e) => given@.number(limit as nat) == Err::<nat, Seq<char>>(e.text()),
        },
{
    read_number(given.text.as_str(), limit)
}

fn fraction(given: &Given) -> (r: Result<Double, Error>)
    ensures
        match r {
            Ok(v) => given@.fraction == Ok::<Double, Seq<char>>(v),
            Err(e) => given@.fraction == Err::<Double, Seq<char>>(e.text()),
        },
{
    match &given.fraction {
        Ok(v) => Ok(*v),
        Err(why) => Err(Error::Told { text: why.clone() }),
    }
}

impl Config {
    /// Sets one setting. The result may be out of bounds; see
    /// [`Config::validate`].
    pub fn apply_setting(&mut self, key: &str, given: &Given) -> (r: Result<(), Error>)
        ensures
            match r {
                Ok(_) => changed(old(self)@, key@, given@) == Ok::<ConfigView, Seq<char>>(final(self)@),
                Err(e) => {
                    &&& changed(old(self)@, key@, given@) == Err::<ConfigView, Seq<char>>(e.text())
                    &&& final(self)@ == old(self)@
                },
            },
    {
        if same_text(key, "ram-fraction") {
            self.ram_fraction = fraction(given)?;
        } else if same_text(key, "ram-reserve-bytes") {
            self.ram_reserve_bytes = number(given, u64::MAX)?;
        } else if same_text(key, "ram-reserve-fraction") {
            self.ram_reserve_fraction = fraction(given)?;
        } else if same_text(key, "ram-limit-bytes") {
            self.ram_limit_bytes = Some(number(given, u64::MAX)?);
        } else if same_text(key, "cluster-name") {
            self.cluster_name = given.text.clone();
        } else if same_text(key, "cluster-secret") {
            self.cluster_secret = Some(given.text.clone());
        } else if same_text(key, "chunk-bytes") {
            self.chunk_bytes = number(given, usize::MAX as u64)? as usize;
        } else if same_text(key, "data-transport") {
            self.data_transport = given.text.clone();
        } else if same_text(key, "udp-payload-bytes") {
            self.udp_payload_bytes = number(given, usize::MAX as u64)? as usize;
        } else if same_text(key, "udp-window-packets") {
            self.udp_window_packets = number(given, usize::MAX as u64)? as usize;
        } else if same_text(key, "udp-initial-rto-ms") {
            self.udp_initial_rto_ms = number(given, u64::MAX)?;
        } else if same_text(key, "udp-pacing-micros") {
            self.udp_pacing_micros = number(given, u64::MAX)?;
        } else if same_text(key, "udp-max-retries") {
            self.udp_max_retries = number(given, u32::MAX as u64)? as u32;
        } else if same_text(key, "lease-seconds") {
            self.lease_seconds = number(given, u64::MAX)?;
        } else if same_text(key, "vram-reserve-bytes") {
            self.vram_reserve_bytes = number(given, u64::MAX)?;
        } else if same_text(key, "vram-reserve-fraction") {
            self.vram_reserve_fraction = fraction(given)?;
        } else if same_text(key, "listen") {
            match &given.address {
                Ok(v) => {
                    self.listen = *v;
                },
                Err(why) => {
                    return Err(Error::Told { text: why.clone() });
                },
            }
        } else {
            return Err(Error::UnknownKey { key: key.to_owned() });
        }
        Ok(())
    }

    /// Hides the secret.
    pub fn redact(&mut self)
        ensures
            final(self)@ == redacted(old(self)@),
    {
        if self.cluster_secret.is_some() {
            self.cluster_secret = Some("<redacted>".to_owned());
        }
    }

    /// Does what is asked of the settings, and says whether they are to be
    /// saved. Those that are out of bounds are not.
    pub fn configure(
        &mut self,
        command: ConfigCommand,
        fraction: Result<Double, String>,
        address: Result<SocketAddress, String>,
    ) -> (r: Result<bool, Error>)
        ensures
            match command {
                ConfigCommand::Show => r == Ok::<bool, Error>(false) && final(self)@ == redacted(old(self)@),
                ConfigCommand::Change { key, value } => match changed(
                    old(self)@,
                    key@,
                    Given { text: value, fraction, address }@,
                ) {
                    Ok(c) => final(self)@ == c && r == (match c.fault() {
                        Some(fault) => Err::<bool, Error>(Error::Config { fault }),
                        None => Ok(true),
                    }),
                    Err(text) => final(self)@ == old(self)@ && (r matches Err(e) && e.text() == text),
                },
            },
    {
        match command {
            ConfigCommand::Show => {
                self.redact();
                Ok(false)
            },
            ConfigCommand::Change { key, value } => {
                let given: Given = Given { text: value, fraction, address };
                self.apply_setting(key.as_str(), &given)?;
                self.validate()?;
                Ok(true)
            },
        }
    }

    /// Takes what the command line tells a daemon, if that is within bounds.
    pub fn apply_daemon_options(&mut self, options: DaemonOptions) -> (r: Result<(), Error>)
        ensures
            match r {
                Ok(_) => {
                    &&& daemon_fault(old(self)@, options) is None
                    &&& final(self)@ == overridden(old(self)@, options)
                    &&& final(self)@.valid()
                },
                Err(e) => daemon_fault(old(self)@, options) == Some(e),
            },
    {
        if options.enable_disk_spill {
            return Err(Error::SpillDisabled);
        }
        if let Some(v) = options.listen {
            self.listen = v;
        }
        if options.advertise_ip.is_some() {
            self.advertise_ip = options.advertise_ip;
        }
        if let Some(v) = options.multicast_interface {
            self.multicast_interface = v;
        }
        if let Some(v) = options.discovery_port {
            self.discovery_port = v;
        }
        if options.no_discovery {
            self.discovery_enabled = false;
        }
        let mut i: usize = 0;
        let ghost first = *self;
        while i < options.seed.len()
            invariant
                i <= options.seed@.len(),
                self.seeds@ == first.seeds@ + options.seed@.take(i as int),
                *self == (Config { seeds: self.seeds, ..first }),
            decreases options.seed@.len() - i,
        {
            self.seeds.push(options.seed[i]);
            i = i + 1;
            proof {
                assert(self.seeds@ =~= first.seeds@ + options.seed@.take(i as int));
            }
        }
        proof {
            assert(options.seed@.take(i as int) =~= options.seed@);
        }
        if let Some(mib) = options.ram_limit_mib {
            match mib.checked_mul(MIB) {
                Some(bytes) => {
                    self.ram_limit_bytes = Some(bytes);
                },
                None => {
                    return Err(Error::RamLimitOverflow);
                },
            }
        }
        if let Some(v) = options.data_transport {
            self.data_transport = v;
        }
        self.validate()
    }
}

} // verus!
