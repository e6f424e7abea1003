//! Launching a training command: a plan from the local daemon, or from a
//! runtime that is started for it.
use crate::address::{IpAddress, SocketAddress};
use crate::config::{Config, ConfigView};
use crate::error::Error;
use crate::text::{begins_with, characters, lower, lower_letters};
use vstd::prelude::*;

verus! {

/// How often a runtime that was started is asked for a plan.
pub const ATTEMPTS: u32 = 20;

/// Milliseconds from one attempt to the next.
pub const BETWEEN_ATTEMPTS: u64 = 25;

/// Milliseconds that other nodes are given to be heard: a little more than
/// their announcements are apart.
pub const DISCOVERY_PAUSE: u64 = 2_200;

/// Whether the last part of a program's path names a Python interpreter.
pub open spec fn python_name(name: Seq<char>) -> bool {
    ||| lower(name) == "python"@
    ||| "python3"@.is_prefix_of(lower(name))
    ||| "pypy"@.is_prefix_of(lower(name))
}

/// Whether a program is a Python interpreter, by the last part of its path. A
/// path without one, or with one that is not text, is none.
pub fn is_python(file_name: Option<&str>) -> (r: bool)
    ensures
        r == (file_name is Some && python_name(file_name->0@)),
{
    match file_name {
        Some(name) => {
            let letters: Vec<char> = lower_letters(name);
            let wanted: Vec<char> = characters("python");
            let whole: bool = letters.len() == wanted.len() && begins_with(&letters, "python");
            proof {
                if whole {
                    assert(letters@ =~= letters@.subrange(0, letters@.len() as int));
                }
                if lower(name@) == "python"@ {
                    assert(letters@ =~= letters@.subrange(0, letters@.len() as int));
                }
            }
            whole || begins_with(&letters, "python3") || begins_with(&letters, "pypy")
        },
        None => false,
    }
}

/// The exit code that a shell would give: the program's own, or 128 and the
/// signal that ended it.
pub fn exit_code(code: Option<i32>, signal: Option<i32>) -> (r: i32)
    requires
        signal is Some ==> signal->0 <= i32::MAX - 128,
    ensures
        match code {
            Some(c) => r == c,
            None => r == 128 + (match signal {
                Some(s) => s as int,
                None => 1,
            }),
        },
{
    match code {
        Some(c) => c,
        None => match signal {
            Some(s) => 128 + s,
            None => 129,
        },
    }
}

/// The settings of a runtime that is started for an address. It listens there
/// unless the settings have it listen there anyhow.
pub open spec fn embedded(c: ConfigView, address: SocketAddress) -> ConfigView {
    if !c.listen.host().unspecified() || c.listen.door() != address.door() {
        ConfigView {
            listen: address,
            advertise_ip: match address.host() {
                IpAddress::V4 { ip } => Some(ip),
                IpAddress::V6 { ip } => c.advertise_ip,
            },
            ..c
        }
    } else {
        c
    }
}

impl Config {
    /// Makes these the settings of a runtime that is started for an address.
    pub fn embed(&mut self, address: SocketAddress)
        ensures
            final(self)@ == embedded(old(self)@, address),
    {
        if !self.listen.ip().is_unspecified() || self.listen.port() != address.port() {
            self.listen = address;
            if let IpAddress::V4 { ip } = address.ip() {
                self.advertise_ip = Some(ip);
            }
        }
    }
}

/// How far the search for a plan has come.
pub enum Search {
    /// The daemon at the address was asked.
    Asking,
    /// It gave no plan; whether anyone listens there was tried.
    Knocking { cause: String },
    /// A runtime is being started.
    Starting,
    /// It did not start; the address was asked once more.
    Rescuing { cause: String },
    /// It started, and has been asked in vain so often.
    Waiting { tried: u32 },
}

/// How the last step went.
pub enum Attempt {
    Worked,
    Failed { why: String },
}

/// The next step of a search.
#[derive(Clone, Copy, Debug, PartialEq, Eq, Structural)]
pub enum Seek {
    /// Ask for a plan after so many milliseconds.
    Ask { after: u64 },
    /// Try whether anyone listens at the address.
    Knock,
    /// Start a runtime for the address.
    Start,
    /// The plan is there; a runtime was started for it or not.
    Found { started: bool },
}

/// A search for a plan.
pub struct Launch {
    pub address: SocketAddress,
    /// The address, written out.
    pub shown: String,
    pub discovery_enabled: bool,
    pub search: Search,
}

/// What an attempt leads to.
pub open spec fn sought(a: Launch, z: Launch, attempt: Attempt, r: Result<Seek, Error>) -> bool {
    &&& z == (Launch { search: z.search, ..a })
    &&& match (a.search, attempt) {
        (Search::Asking, Attempt::Worked) => r == Ok::<Seek, Error>(Seek::Found { started: false }),
        (Search::Asking, Attempt::Failed { why }) => {
            &&& r == Ok::<Seek, Error>(Seek::Knock)
            &&& z.search == (Search::Knocking { cause: why })
        },
        (Search::Knocking { cause }, Attempt::Worked) => {
            r matches Err(Error::PortOccupied { address, cause: told }) && address@ == a.shown@ && told@ == cause@
        },
        (Search::Knocking { cause }, Attempt::Failed { why }) => if a.address.host().loopback() {
            r == Ok::<Seek, Error>(Seek::Start) && z.search == Search::Starting
        } else {
            r matches Err(Error::NotLoopback { address }) && address@ == a.shown@
        },
        (Search::Starting, Attempt::Worked) => {
            &&& r == Ok::<Seek, Error>(
                Seek::Ask {
                    after: if a.discovery_enabled {
                        DISCOVERY_PAUSE
                    } else {
                        0
                    },
                },
            )
            &&& z.search == (Search::Waiting { tried: 0 })
        },
        (Search::Starting, Attempt::Failed { why }) => {
            &&& r == Ok::<Seek, Error>(Seek::Ask { after: 0 })
            &&& z.search == (Search::Rescuing { cause: why })
        },
        (Search::Rescuing { cause }, Attempt::Worked) => r == Ok::<Seek, Error>(Seek::Found { started: false }),
        (Search::Rescuing { cause }, Attempt::Failed { why }) => {
            r matches Err(Error::StartFailed { address, cause: told }) && address@ == a.shown@ && told@ == cause@
        },
        (Search::Waiting { tried }, Attempt::Worked) => r == Ok::<Seek, Error>(Seek::Found { started: true }),
        (Search::Waiting { tried }, Attempt::Failed { why }) => if tried + 1 < ATTEMPTS {
            &&& r == Ok::<Seek, Error>(Seek::Ask { after: BETWEEN_ATTEMPTS })
            &&& z.search == (Search::Waiting { tried: (tried + 1) as u32 })
        } else {
            r matches Err(Error::RuntimeNotReady { cause: told }) && told@ == why@
        },
    }
}

impl Launch {
    /// Begins a search: the daemon at the address is asked.
    pub fn new(address: SocketAddress, shown: String, discovery_enabled: bool) -> (r: Self)
        ensures
            r == (Launch { address, shown, discovery_enabled, search: Search::Asking }),
    {
        Launch { address, shown, discovery_enabled, search: Search::Asking }
    }

    /// Goes on after an attempt.
    pub fn next(&mut self, attempt: Attempt) -> (r: Result<Seek, Error>)
        ensures
            sought(*old(self), *final(self), attempt, r),
    {
        match attempt {
            Attempt::Worked => match &self.search {
                Search::Asking => Ok(Seek::Found { started: false }),
                Search::Knocking { cause } => Err(
                    Error::PortOccupied { address: self.shown.clone(), cause: cause.clone() },
                ),
                Search::Starting => {
                    let after: u64 = if self.discovery_enabled {
                        DISCOVERY_PAUSE
                    } else {
                        0
                    };
                    self.search = Search::Waiting { tried: 0 };
                    Ok(Seek::Ask { after })
                },
                Search::Rescuing { cause } => Ok(Seek::Found { started: false }),
                Search::Waiting { tried } => Ok(Seek::Found { started: true }),
            },
            Attempt::Failed { why } => match &self.search {
                Search::Asking => {
                    self.search = Search::Knocking { cause: why };
                    Ok(Seek::Knock)
                },
                Search::Knocking { cause } => {
                    if self.address.ip().is_loopback() {
                        self.search = Search::Starting;
                        Ok(Seek::Start)
                    } else {
                        Err(Error::NotLoopback { address: self.shown.clone() })
                    }
                },
                Search::Starting => {
                    self.search = Search::Rescuing { cause: why };
                    Ok(Seek::Ask { after: 0 })
                },
                Search::Rescuing { cause } => Err(
                    Error::StartFailed { address: self.shown.clone(), cause: cause.clone() },
                ),
                Search::Waiting { tried } => {
                    let tried: u32 = *tried;
                    if tried < ATTEMPTS - 1 {
                        self.search = Search::Waiting { tried: tried + 1 };
                        Ok(Seek::Ask { after: BETWEEN_ATTEMPTS })
                    } else {
                        Err(Error::RuntimeNotReady { cause: why })
                    }
                },
            },
        }
    }
}

/// What is needed before anything is launched: a program.
pub fn program_check(arguments: usize) -> (r: Result<(), Error>)
    ensures
        r == (if arguments == 0 {
            Err::<(), Error>(Error::MissingProgram)
        } else {
            Ok(())
        }),
{
    if arguments == 0 {
        Err(Error::MissingProgram)
    } else {
        Ok(())
    }
}

/// The job of a plan. A plan without one is refused.
pub fn plan_job(job_id: Option<String>) -> (r: Result<String, Error>)
    ensures
        match job_id {
            Some(job) => r == Ok::<String, Error>(job),
            None => r == Err::<String, Error>(Error::InvalidPlan),
        },
{
    match job_id {
        Some(job) => Ok(job),
        None => Err(Error::InvalidPlan),
    }
}

/// A daemon that answers is used; a runtime is never started beside it, and
/// never for an address of another machine.
pub proof fn law_running_daemon_is_reused(a: Launch, z: Launch, attempt: Attempt, r: Result<Seek, Error>)
    requires
        sought(a, z, attempt, r),
    ensures
        a.search is Asking && attempt is Worked ==> r == Ok::<Seek, Error>(Seek::Found { started: false }),
        r == Ok::<Seek, Error>(Seek::Start) ==> a.search is Knocking && attempt is Failed
            && a.address.host().loopback(),
{
}

} // verus!
