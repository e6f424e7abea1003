//! The command line: what is asked of a daemon, and how sizes are shown.
use crate::address::{IpAddress, SocketAddress, LOCALHOST};
use crate::config::MIB;
use crate::double::{divide_hundredths, hundredths};
use crate::error::Error;
use crate::protocol::request::Request;
use crate::scheduler::planner::StageSpec;
use crate::text::{decimal, decimal_text, hundredths_text, join, with_hundredths};
use vstd::prelude::*;

pub mod report;
pub mod settings;

verus! {

/// What is done with the settings.
pub enum ConfigCommand {
    Change { key: String, value: String },
    Show,
}

/// A question to a daemon.
#[derive(Clone, Copy, Debug, PartialEq, Eq, Structural)]
pub enum Query {
    Nodes,
    Status,
    Leader,
    Memory,
    Topology,
    Metrics,
    Benchmark { mib: usize },
    Plan,
}

/// After so many milliseconds what the SDK reported is stale.
pub const STALE_MS: u64 = 5_000;

/// A number of bytes in the largest decimal unit that it reaches.
pub open spec fn bytes_text(bytes: u64) -> Seq<char> {
    if bytes >= 1_000_000_000_000 {
        with_hundredths(hundredths(bytes as nat, 1_000_000_000_000)) + " TB"@
    } else if bytes >= 1_000_000_000 {
        with_hundredths(hundredths(bytes as nat, 1_000_000_000)) + " GB"@
    } else if bytes >= 1_000_000 {
        with_hundredths(hundredths(bytes as nat, 1_000_000)) + " MB"@
    } else if bytes >= 1_000 {
        with_hundredths(hundredths(bytes as nat, 1_000)) + " KB"@
    } else {
        decimal(bytes as nat) + " B"@
    }
}

/// A number of bytes with its unit.
pub fn format_bytes(bytes: u64) -> (r: String)
    ensures
        r@ == bytes_text(bytes),
{
    if bytes >= 1_000_000_000_000 {
        join(hundredths_text(divide_hundredths(bytes, 1_000_000_000_000)).as_str(), " TB")
    } else if bytes >= 1_000_000_000 {
        join(hundredths_text(divide_hundredths(bytes, 1_000_000_000)).as_str(), " GB")
    } else if bytes >= 1_000_000 {
        join(hundredths_text(divide_hundredths(bytes, 1_000_000)).as_str(), " MB")
    } else if bytes >= 1_000 {
        join(hundredths_text(divide_hundredths(bytes, 1_000)).as_str(), " KB")
    } else {
        join(decimal_text(bytes).as_str(), " B")
    }
}

/// A figure of the SDK with its age. A stale one is not shown, and one that is
/// not known is never shown as zero.
pub open spec fn sdk_text(value: Option<u64>, age_ms: Option<u64>) -> Seq<char> {
    match (value, age_ms) {
        (Some(bytes), Some(age)) => if age > STALE_MS {
            "STALE (age "@ + with_hundredths(hundredths(age as nat, 1_000)) + " s)"@
        } else {
            bytes_text(bytes) + " (age "@ + decimal(age as nat) + " ms)"@
        },
        _ => "UNKNOWN"@,
    }
}

/// A figure of the SDK with its age.
pub fn format_sdk_metric(value: Option<u64>, age_ms: Option<u64>) -> (r: String)
    ensures
        r@ == sdk_text(value, age_ms),
{
    match (value, age_ms) {
        (Some(bytes), Some(age)) => {
            if age > STALE_MS {
                join(join("STALE (age ", hundredths_text(divide_hundredths(age, 1_000)).as_str()).as_str(), " s)")
            } else {
                join(
                    join(join(format_bytes(bytes).as_str(), " (age ").as_str(), decimal_text(age).as_str()).as_str(),
                    " ms)",
                )
            }
        },
        _ => "UNKNOWN".to_owned(),
    }
}

/// The daemon to ask: the one that was named, or the local one.
pub fn client_address(named: Option<SocketAddress>, listen: SocketAddress) -> (r: SocketAddress)
    ensures
        match named {
            Some(address) => r == address,
            None => if listen.host().unspecified() {
                r == (SocketAddress::V4 { ip: LOCALHOST, port: listen.door() })
            } else {
                r == listen
            },
        },
{
    match named {
        Some(address) => address,
        None => if listen.ip().is_unspecified() {
            IpAddress::V4 { ip: LOCALHOST }.with_port(listen.port())
        } else {
            listen
        },
    }
}

/// The request of a question.
pub fn request_for(query: Query) -> (r: Result<Request, Error>)
    ensures
        match query {
            Query::Topology => r == Ok::<Request, Error>(Request::Topology),
            Query::Metrics => r == Ok::<Request, Error>(Request::Metrics),
            Query::Benchmark { mib } => if mib * MIB > usize::MAX {
                r == Err::<Request, Error>(Error::BenchmarkOverflow)
            } else {
                r == Ok::<Request, Error>(Request::Benchmark { bytes: (mib * MIB) as usize })
            },
            Query::Plan => (r matches Ok(Request::Plan { stages }) && stages@.len() == 0),
            _ => r == Ok::<Request, Error>(Request::Status),
        },
{
    match query {
        Query::Topology => Ok(Request::Topology),
        Query::Metrics => Ok(Request::Metrics),
        Query::Benchmark { mib } => match mib.checked_mul(MIB as usize) {
            Some(bytes) => Ok(Request::Benchmark { bytes }),
            None => Err(Error::BenchmarkOverflow),
        },
        Query::Plan => {
            let stages: Vec<StageSpec> = Vec::new();
            Ok(Request::Plan { stages })
        },
        _ => Ok(Request::Status),
    }
}

/// Whether the answer to a question is shown as it came.
pub fn shown_raw(query: Query, json: bool) -> (r: bool)
    ensures
        r == (json || query is Metrics || query is Plan),
{
    match query {
        Query::Metrics => true,
        Query::Plan => true,
        _ => json,
    }
}

/// Whether the answer to a question is a table of links.
pub fn shown_as_links(query: Query) -> (r: bool)
    ensures
        r == (query is Topology || query is Benchmark),
{
    match query {
        Query::Topology => true,
        Query::Benchmark { mib } => true,
        _ => false,
    }
}

/// A figure that was never reported, or of which no one knows the age, is
/// unknown, and a stale one does not show: neither shows as zero.
pub proof fn law_stale_figures_do_not_show(value: Option<u64>, other: u64, age_ms: Option<u64>)
    ensures
        value is None || age_ms is None ==> sdk_text(value, age_ms) == "UNKNOWN"@,
        value is Some && age_ms is Some && age_ms->0 > STALE_MS ==> sdk_text(value, age_ms) == sdk_text(
            Some(other),
            age_ms,
        ),
{
}

} // verus!
