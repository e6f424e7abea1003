//! What can go wrong, and how it is told.
use crate::ids::{hyphenated, uuid_text, Uuid};
use crate::text::{decimal, decimal_text, join};
use vstd::prelude::*;

verus! {

/// A setting that is out of its bounds.
#[derive(Clone, Copy, Debug, PartialEq, Eq, Structural)]
pub enum ConfigFault {
    RamFraction,
    RamReserveFraction,
    ChunkBytes,
    DataTransport,
    UdpPayloadBytes,
    UdpWindowPackets,
    UdpInitialRto,
    UdpPacing,
    UdpMaxRetries,
    UdpMaxSessions,
    LeaseSeconds,
    VramReserveFraction,
    MulticastGroup,
    ClusterName,
    DiskSpill,
    ClusterSecret,
}

impl ConfigFault {
    /// The text that tells of this fault.
    pub open spec fn text(self) -> Seq<char> {
        match self {
            ConfigFault::RamFraction => "ram-fraction must be between 0.10 and 0.90"@,
            ConfigFault::RamReserveFraction => "invalid RAM reserve fraction"@,
            ConfigFault::ChunkBytes => "chunk-bytes must be 4096..67108864"@,
            ConfigFault::DataTransport => "data-transport must be tcp or udp"@,
            ConfigFault::UdpPayloadBytes => "udp-payload-bytes must be 512..1200"@,
            ConfigFault::UdpWindowPackets => "udp-window-packets must be 2..256"@,
            ConfigFault::UdpInitialRto => "udp-initial-rto-ms must be 10..5000"@,
            ConfigFault::UdpPacing => "udp-pacing-micros must be 1..100000"@,
            ConfigFault::UdpMaxRetries => "udp-max-retries must be 1..64"@,
            ConfigFault::UdpMaxSessions => "udp-max-sessions must be 1..4096"@,
            ConfigFault::LeaseSeconds => "lease-seconds must be 10..86400"@,
            ConfigFault::VramReserveFraction => "invalid VRAM reserve fraction"@,
            ConfigFault::MulticastGroup => "discovery address must be multicast"@,
            ConfigFault::ClusterName => "invalid cluster name"@,
            ConfigFault::DiskSpill => "experimental disk spill: not implemented"@,
            ConfigFault::ClusterSecret => "cluster-secret cannot be empty"@,
        }
    }

    /// The text that tells of this fault.
    pub fn message(self) -> (r: String)
        ensures
            r@ == self.text(),
    {
        match self {
            ConfigFault::RamFraction => "ram-fraction must be between 0.10 and 0.90".to_owned(),
            ConfigFault::RamReserveFraction => "invalid RAM reserve fraction".to_owned(),
            ConfigFault::ChunkBytes => "chunk-bytes must be 4096..67108864".to_owned(),
            ConfigFault::DataTransport => "data-transport must be tcp or udp".to_owned(),
            ConfigFault::UdpPayloadBytes => "udp-payload-bytes must be 512..1200".to_owned(),
            ConfigFault::UdpWindowPackets => "udp-window-packets must be 2..256".to_owned(),
            ConfigFault::UdpInitialRto => "udp-initial-rto-ms must be 10..5000".to_owned(),
            ConfigFault::UdpPacing => "udp-pacing-micros must be 1..100000".to_owned(),
            ConfigFault::UdpMaxRetries => "udp-max-retries must be 1..64".to_owned(),
            ConfigFault::UdpMaxSessions => "udp-max-sessions must be 1..4096".to_owned(),
            ConfigFault::LeaseSeconds => "lease-seconds must be 10..86400".to_owned(),
            ConfigFault::VramReserveFraction => "invalid VRAM reserve fraction".to_owned(),
            ConfigFault::MulticastGroup => "discovery address must be multicast".to_owned(),
            ConfigFault::ClusterName => "invalid cluster name".to_owned(),
            ConfigFault::DiskSpill => "experimental disk spill: not implemented".to_owned(),
            ConfigFault::ClusterSecret => "cluster-secret cannot be empty".to_owned(),
        }
    }
}

/// Every refusal of the library.
#[derive(Clone, Debug, PartialEq, Eq)]
pub enum Error {
    OutOfCapacity { bytes: u64 },
    TensorLayout,
    TensorDtype,
    TensorSize,
    BlockExists,
    BlockLimit,
    Range,
    MemoryExhausted,
    BlockAbsent { id: Uuid },
    LeaseDenied,
    LeaseExpired,
    WriteStale,
    WriteStaleDirect,
    WriteOrder,
    TransferMismatch,
    ChecksumMismatch,
    ReadStale,
    ReadRange,
    NotReady,
    Incomplete,
    DatagramTooLong,
    DatagramLength,
    DatagramMagic,
    DatagramVersion,
    DatagramKind { code: u8 },
    DatagramPayload,
    DatagramChecksum,
    DatagramAuth,
    Bitmap,
    UdpReadLength,
    UdpReadStale,
    UdpRangeOverflow,
    UdpReadRange,
    UdpReadLimit,
    UdpStart,
    UdpSessionLength,
    UdpPacketCount,
    UdpSessionRange,
    UdpWriteStale,
    UdpSessionLimit,
    UdpTransferStale,
    UdpSessionChanged,
    UdpSequence,
    UdpOffset,
    UdpPayload,
    UdpFinChanged,
    UdpChecksum,
    UdpDestinationChanged,
    TransferEmpty,
    TransferTooLong,
    TransferRange,
    StartTimeout,
    RetryTimeout,
    FinTimeout,
    ReadTooLong,
    RequestTimeout,
    ReadSession,
    ReadTimeout,
    ReadSequence,
    ReadData,
    TransferAborted,
    StagingTooLarge,
    TooManyStages,
    JobUnknown,
    JobStale,
    JobLost,
    StaleLeader,
    LeadershipChanged,
    ZeroLength,
    NoCapacity { reason: String },
    WrongOwner,
    OnlyRam,
    MustWrite,
    Headroom,
    BlockUnknown { id: Uuid },
    BlockLost { id: Uuid, node: Uuid },
    MigrationConflict,
    MigrationCommit,
    NotControl,
    NotData,
    ChunkSize,
    ChunkRange,
    ReadRequestRange,
    ProbeTooLarge,
    NodeUnavailable { node: Uuid },
    PeerUnavailable,
    NoLeader,
    DuplicateNode,
    PeerChunk,
    PeerInventory,
    InventoryOwner,
    BenchmarkTooLarge,
    BenchmarkSelf,
    MigrationHere,
    MigrationStale,
    MigrationDestination,
    NoCuda,
    WorkingSet { stage: String },
    NoCudaNode { node: Uuid },
    FrameLimit,
    ProtocolVersion { received: u32 },
    AuthFailed,
    SecretMismatch,
    ClusterMismatch,
    ProtocolFailure,
    OtherCluster,
    DiscoveryVersion,
    DiscoveryStale,
    PeerAddress,
    UnknownKey { key: String },
    RamLimitOverflow,
    BenchmarkOverflow,
    NumberEmpty,
    NumberDigit,
    NumberRange,
    SpillDisabled,
    MissingProgram,
    InvalidPlan,
    SegmentSize,
    PortOccupied { address: String, cause: String },
    NotLoopback { address: String },
    StartFailed { address: String, cause: String },
    RuntimeNotReady { cause: String },
    SdkMissing,
    Config { fault: ConfigFault },
    /// What another node or another library said.
    Told { text: String },
}

impl Error {
    /// The text that tells of this refusal.
    pub open spec fn text(self) -> Seq<char> {
        match self {
            Error::OutOfCapacity { bytes } => "TRAINPOOL_OUT_OF_CAPACITY: RAM budget cannot satisfy "@ + decimal(bytes as nat) + " bytes"@,
            Error::TensorLayout => "unsupported tensor layout or rank"@,
            Error::TensorDtype => "unsupported tensor dtype"@,
            Error::TensorSize => "tensor shape/dtype/byte_length mismatch"@,
            Error::BlockExists => "block already exists"@,
            Error::BlockLimit => "block count limit reached"@,
            Error::Range => "out of range integral type conversion attempted"@,
            Error::MemoryExhausted => "memory allocation failed because the memory allocator returned an error"@,
            Error::BlockAbsent { id } => "TRAINPOOL_DATA_LOST: block "@ + hyphenated(id) + " is absent on this node"@,
            Error::LeaseDenied => "TRAINPOOL_LEASE_DENIED"@,
            Error::LeaseExpired => "TRAINPOOL_LEASE_EXPIRED"@,
            Error::WriteStale => "block is immutable, stale or non-sequential"@,
            Error::WriteStaleDirect => "block is immutable or stale"@,
            Error::WriteOrder => "chunks must be sequential"@,
            Error::TransferMismatch => "transfer id mismatch"@,
            Error::ChecksumMismatch => "TRAINPOOL_CHECKSUM_MISMATCH"@,
            Error::ReadStale => "block not ready or handle stale"@,
            Error::ReadRange => "read exceeds allocation"@,
            Error::NotReady => "destination is not ready"@,
            Error::Incomplete => "incomplete upload"@,
            Error::DatagramTooLong => "UDP datagram exceeds MTU-safe envelope"@,
            Error::DatagramLength => "invalid UDP datagram length"@,
            Error::DatagramMagic => "invalid UDP magic"@,
            Error::DatagramVersion => "unsupported UDP protocol version"@,
            Error::DatagramKind { code } => "unknown UDP packet kind "@ + decimal(code as nat),
            Error::DatagramPayload => "UDP payload length mismatch"@,
            Error::DatagramChecksum => "TRAINPOOL_CHECKSUM_MISMATCH: UDP datagram"@,
            Error::DatagramAuth => "TRAINPOOL_AUTH_FAILED: UDP datagram"@,
            Error::Bitmap => "invalid ACK/NACK bitmap"@,
            Error::UdpReadLength => "invalid UDP read length"@,
            Error::UdpReadStale => "stale UDP read handle"@,
            Error::UdpRangeOverflow => "UDP range overflow"@,
            Error::UdpReadRange => "UDP read exceeds block"@,
            Error::UdpReadLimit => "TRAINPOOL_UDP_BACKPRESSURE: receiver read-session limit"@,
            Error::UdpStart => "invalid UDP START metadata"@,
            Error::UdpSessionLength => "invalid UDP session length"@,
            Error::UdpPacketCount => "invalid UDP packet count"@,
            Error::UdpSessionRange => "UDP session exceeds block"@,
            Error::UdpWriteStale => "stale or non-sequential UDP write session"@,
            Error::UdpSessionLimit => "TRAINPOOL_UDP_BACKPRESSURE: receiver session limit"@,
            Error::UdpTransferStale => "stale UDP transfer ID"@,
            Error::UdpSessionChanged => "UDP session metadata changed"@,
            Error::UdpSequence => "UDP sequence outside session"@,
            Error::UdpOffset => "UDP packet offset mismatch"@,
            Error::UdpPayload => "UDP payload range mismatch"@,
            Error::UdpFinChanged => "UDP FIN checksum changed"@,
            Error::UdpChecksum => "TRAINPOOL_CHECKSUM_MISMATCH: UDP transfer"@,
            Error::UdpDestinationChanged => "UDP destination changed before completion"@,
            Error::TransferEmpty => "zero-length UDP transfer"@,
            Error::TransferTooLong => "UDP transfer exceeds configured chunk size"@,
            Error::TransferRange => "UDP transfer range exceeds block"@,
            Error::StartTimeout => "TRAINPOOL_TRANSFER_TIMEOUT: UDP START"@,
            Error::RetryTimeout => "TRAINPOOL_TRANSFER_TIMEOUT: bounded UDP retry exhausted"@,
            Error::FinTimeout => "TRAINPOOL_TRANSFER_TIMEOUT: UDP FIN acknowledgement"@,
            Error::ReadTooLong => "UDP read exceeds configured chunk size"@,
            Error::RequestTimeout => "TRAINPOOL_TRANSFER_TIMEOUT"@,
            Error::ReadSession => "invalid UDP read session"@,
            Error::ReadTimeout => "TRAINPOOL_TRANSFER_TIMEOUT: UDP read"@,
            Error::ReadSequence => "UDP sequence outside transfer"@,
            Error::ReadData => "UDP data range invalid"@,
            Error::TransferAborted => "TRAINPOOL_TRANSFER_ABORTED"@,
            Error::StagingTooLarge => "SDK staging reservation exceeds chunk size"@,
            Error::TooManyStages => "too many stages"@,
            Error::JobUnknown => "TRAINPOOL_JOB_LOST: unknown job; leadership may have changed"@,
            Error::JobStale => "TRAINPOOL_STALE_LEADER: recreate job after leadership change"@,
            Error::JobLost => "TRAINPOOL_JOB_LOST"@,
            Error::StaleLeader => "TRAINPOOL_STALE_LEADER"@,
            Error::LeadershipChanged => "TRAINPOOL_STALE_LEADER: membership/epoch changed"@,
            Error::ZeroLength => "zero-length blocks are represented locally by the SDK"@,
            Error::NoCapacity { reason } => "TRAINPOOL_OUT_OF_CAPACITY: "@ + reason@,
            Error::WrongOwner => "wrong allocation owner"@,
            Error::OnlyRam => "only RAM allocations are supported"@,
            Error::MustWrite => "allocation must start in writing state"@,
            Error::Headroom => "TRAINPOOL_OUT_OF_CAPACITY: allocation must leave 256 KiB relay headroom"@,
            Error::BlockUnknown { id } => "TRAINPOOL_DATA_LOST: block "@ + hyphenated(id) + " not found"@,
            Error::BlockLost { id, node } => "TRAINPOOL_DATA_LOST: block "@ + hyphenated(id) + " was stored exclusively on node "@ + hyphenated(node),
            Error::MigrationConflict => "TRAINPOOL_MIGRATION_CONFLICT"@,
            Error::MigrationCommit => "invalid migration commit"@,
            Error::NotControl => "data operation on control channel"@,
            Error::NotData => "not a data request"@,
            Error::ChunkSize => "chunk size exceeds negotiated limit"@,
            Error::ChunkRange => "invalid chunk range"@,
            Error::ReadRequestRange => "invalid read range"@,
            Error::ProbeTooLarge => "probe capped at 64 MiB"@,
            Error::NodeUnavailable { node } => "TRAINPOOL_NODE_UNAVAILABLE: "@ + hyphenated(node),
            Error::PeerUnavailable => "TRAINPOOL_NODE_UNAVAILABLE"@,
            Error::NoLeader => "no leader"@,
            Error::DuplicateNode => "duplicate node_id: use distinct data directories per installation"@,
            Error::PeerChunk => "invalid peer chunk size"@,
            Error::PeerInventory => "peer inventory exceeds limit"@,
            Error::InventoryOwner => "invalid inventory owner"@,
            Error::BenchmarkTooLarge => "benchmark capped at 64 MiB per directed link"@,
            Error::BenchmarkSelf => "cannot benchmark self"@,
            Error::MigrationHere => "migration destination equals source"@,
            Error::MigrationStale => "migration requires current committed block"@,
            Error::MigrationDestination => "destination unavailable"@,
            Error::NoCuda => "TRAINPOOL_NO_CUDA: no eligible primary GPU"@,
            Error::WorkingSet { stage } => "TRAINPOOL_UNSUPPORTED_WORKING_SET: "@ + stage@ + " exceeds primary GPU capacity"@,
            Error::NoCudaNode { node } => "TRAINPOOL_NO_CUDA: node "@ + hyphenated(node) + " is a memory provider only"@,
            Error::FrameLimit => "control frame exceeds limit"@,
            Error::ProtocolVersion { received } => "TRAINPOOL_PROTOCOL_VERSION: expected 1, received "@ + decimal(received as nat),
            Error::AuthFailed => "TRAINPOOL_AUTH_FAILED"@,
            Error::SecretMismatch => "TRAINPOOL_AUTH_FAILED: cluster secret mismatch"@,
            Error::ClusterMismatch => "TRAINPOOL_CLUSTER_MISMATCH"@,
            Error::ProtocolFailure => "protocol failure"@,
            Error::OtherCluster => "different cluster"@,
            Error::DiscoveryVersion => "TRAINPOOL_PROTOCOL_VERSION: incompatible discovery packet"@,
            Error::DiscoveryStale => "stale discovery packet (check clock synchronization)"@,
            Error::PeerAddress => "invalid peer address"@,
            Error::UnknownKey { key } => "unknown configuration key: "@ + key@,
            Error::RamLimitOverflow => "RAM limit overflow"@,
            Error::BenchmarkOverflow => "benchmark size overflow"@,
            Error::NumberEmpty => "cannot parse integer from empty string"@,
            Error::NumberDigit => "invalid digit found in string"@,
            Error::NumberRange => "number too large to fit in target type"@,
            Error::SpillDisabled => "experimental disk spill: not implemented"@,
            Error::MissingProgram => "missing program to execute"@,
            Error::InvalidPlan => "TRAINPOOL_INVALID_PLAN: missing job_id"@,
            Error::SegmentSize => "invalid UDP GRO segment size"@,
            Error::PortOccupied { address, cause } => "TRAINPOOL_LOCAL_DAEMON_UNAVAILABLE: a process is listening on "@ + address@ + ", but TrainPool could not use it (port occupied or authentication mismatch): "@ + cause@,
            Error::NotLoopback { address } => "TRAINPOOL_LOCAL_DAEMON_UNAVAILABLE: refusing to embed a runtime for non-loopback address "@ + address@,
            Error::StartFailed { address, cause } => "TRAINPOOL_LOCAL_DAEMON_START_FAILED: could not start the local runtime on "@ + address@ + ": "@ + cause@,
            Error::RuntimeNotReady { cause } => "TRAINPOOL_LOCAL_DAEMON_START_FAILED: local runtime did not become ready: "@ + cause@,
            Error::SdkMissing => "TRAINPOOL_PYTHON_SDK_NOT_FOUND\n\nThe Python interpreter selected by TrainPool does not contain\ntrainpool_torch.\n\nInstall the TrainPool Python adapter in this environment and retry."@,
            Error::Config { fault } => fault.text(),
            Error::Told { text } => text@,
        }
    }

    /// The text that tells of this refusal.
    pub fn message(&self) -> (r: String)
        ensures
            r@ == self.text(),
    {
        match self {
            Error::OutOfCapacity { bytes } => join(join("TRAINPOOL_OUT_OF_CAPACITY: RAM budget cannot satisfy ", decimal_text(*bytes).as_str()).as_str(), " bytes"),
            Error::TensorLayout => "unsupported tensor layout or rank".to_owned(),
            Error::TensorDtype => "unsupported tensor dtype".to_owned(),
            Error::TensorSize => "tensor shape/dtype/byte_length mismatch".to_owned(),
            Error::BlockExists => "block already exists".to_owned(),
            Error::BlockLimit => "block count limit reached".to_owned(),
            Error::Range => "out of range integral type conversion attempted".to_owned(),
            Error::MemoryExhausted => "memory allocation failed because the memory allocator returned an error".to_owned(),
            Error::BlockAbsent { id } => join(join("TRAINPOOL_DATA_LOST: block ", uuid_text(*id).as_str()).as_str(), " is absent on this node"),
            Error::LeaseDenied => "TRAINPOOL_LEASE_DENIED".to_owned(),
            Error::LeaseExpired => "TRAINPOOL_LEASE_EXPIRED".to_owned(),
            Error::WriteStale => "block is immutable, stale or non-sequential".to_owned(),
            Error::WriteStaleDirect => "block is immutable or stale".to_owned(),
            Error::WriteOrder => "chunks must be sequential".to_owned(),
            Error::TransferMismatch => "transfer id mismatch".to_owned(),
            Error::ChecksumMismatch => "TRAINPOOL_CHECKSUM_MISMATCH".to_owned(),
            Error::ReadStale => "block not ready or handle stale".to_owned(),
            Error::ReadRange => "read exceeds allocation".to_owned(),
            Error::NotReady => "destination is not ready".to_owned(),
            Error::Incomplete => "incomplete upload".to_owned(),
            Error::DatagramTooLong => "UDP datagram exceeds MTU-safe envelope".to_owned(),
            Error::DatagramLength => "invalid UDP datagram length".to_owned(),
            Error::DatagramMagic => "invalid UDP magic".to_owned(),
            Error::DatagramVersion => "unsupported UDP protocol version".to_owned(),
            Error::DatagramKind { code } => join("unknown UDP packet kind ", decimal_text(*code as u64).as_str()),
            Error::DatagramPayload => "UDP payload length mismatch".to_owned(),
            Error::DatagramChecksum => "TRAINPOOL_CHECKSUM_MISMATCH: UDP datagram".to_owned(),
            Error::DatagramAuth => "TRAINPOOL_AUTH_FAILED: UDP datagram".to_owned(),
            Error::Bitmap => "invalid ACK/NACK bitmap".to_owned(),
            Error::UdpReadLength => "invalid UDP read length".to_owned(),
            Error::UdpReadStale => "stale UDP read handle".to_owned(),
            Error::UdpRangeOverflow => "UDP range overflow".to_owned(),
            Error::UdpReadRange => "UDP read exceeds block".to_owned(),
            Error::UdpReadLimit => "TRAINPOOL_UDP_BACKPRESSURE: receiver read-session limit".to_owned(),
            Error::UdpStart => "invalid UDP START metadata".to_owned(),
            Error::UdpSessionLength => "invalid UDP session length".to_owned(),
            Error::UdpPacketCount => "invalid UDP packet count".to_owned(),
            Error::UdpSessionRange => "UDP session exceeds block".to_owned(),
            Error::UdpWriteStale => "stale or non-sequential UDP write session".to_owned(),
            Error::UdpSessionLimit => "TRAINPOOL_UDP_BACKPRESSURE: receiver session limit".to_owned(),
            Error::UdpTransferStale => "stale UDP transfer ID".to_owned(),
            Error::UdpSessionChanged => "UDP session metadata changed".to_owned(),
            Error::UdpSequence => "UDP sequence outside session".to_owned(),
            Error::UdpOffset => "UDP packet offset mismatch".to_owned(),
            Error::UdpPayload => "UDP payload range mismatch".to_owned(),
            Error::UdpFinChanged => "UDP FIN checksum changed".to_owned(),
            Error::UdpChecksum => "TRAINPOOL_CHECKSUM_MISMATCH: UDP transfer".to_owned(),
            Error::UdpDestinationChanged => "UDP destination changed before completion".to_owned(),
            Error::TransferEmpty => "zero-length UDP transfer".to_owned(),
            Error::TransferTooLong => "UDP transfer exceeds configured chunk size".to_owned(),
            Error::TransferRange => "UDP transfer range exceeds block".to_owned(),
            Error::StartTimeout => "TRAINPOOL_TRANSFER_TIMEOUT: UDP START".to_owned(),
            Error::RetryTimeout => "TRAINPOOL_TRANSFER_TIMEOUT: bounded UDP retry exhausted".to_owned(),
            Error::FinTimeout => "TRAINPOOL_TRANSFER_TIMEOUT: UDP FIN acknowledgement".to_owned(),
            Error::ReadTooLong => "UDP read exceeds configured chunk size".to_owned(),
            Error::RequestTimeout => "TRAINPOOL_TRANSFER_TIMEOUT".to_owned(),
            Error::ReadSession => "invalid UDP read session".to_owned(),
            Error::ReadTimeout => "TRAINPOOL_TRANSFER_TIMEOUT: UDP read".to_owned(),
            Error::ReadSequence => "UDP sequence outside transfer".to_owned(),
            Error::ReadData => "UDP data range invalid".to_owned(),
            Error::TransferAborted => "TRAINPOOL_TRANSFER_ABORTED".to_owned(),
            Error::StagingTooLarge => "SDK staging reservation exceeds chunk size".to_owned(),
            Error::TooManyStages => "too many stages".to_owned(),
            Error::JobUnknown => "TRAINPOOL_JOB_LOST: unknown job; leadership may have changed".to_owned(),
            Error::JobStale => "TRAINPOOL_STALE_LEADER: recreate job after leadership change".to_owned(),
            Error::JobLost => "TRAINPOOL_JOB_LOST".to_owned(),
            Error::StaleLeader => "TRAINPOOL_STALE_LEADER".to_owned(),
            Error::LeadershipChanged => "TRAINPOOL_STALE_LEADER: membership/epoch changed".to_owned(),
            Error::ZeroLength => "zero-length blocks are represented locally by the SDK".to_owned(),
            Error::NoCapacity { reason } => join("TRAINPOOL_OUT_OF_CAPACITY: ", reason.as_str()),
            Error::WrongOwner => "wrong allocation owner".to_owned(),
            Error::OnlyRam => "only RAM allocations are supported".to_owned(),
            Error::MustWrite => "allocation must start in writing state".to_owned(),
            Error::Headroom => "TRAINPOOL_OUT_OF_CAPACITY: allocation must leave 256 KiB relay headroom".to_owned(),
            Error::BlockUnknown { id } => join(join("TRAINPOOL_DATA_LOST: block ", uuid_text(*id).as_str()).as_str(), " not found"),
            Error::BlockLost { id, node } => join(join(join("TRAINPOOL_DATA_LOST: block ", uuid_text(*id).as_str()).as_str(), " was stored exclusively on node ").as_str(), uuid_text(*node).as_str()),
            Error::MigrationConflict => "TRAINPOOL_MIGRATION_CONFLICT".to_owned(),
            Error::MigrationCommit => "invalid migration commit".to_owned(),
            Error::NotControl => "data operation on control channel".to_owned(),
            Error::NotData => "not a data request".to_owned(),
            Error::ChunkSize => "chunk size exceeds negotiated limit".to_owned(),
            Error::ChunkRange => "invalid chunk range".to_owned(),
            Error::ReadRequestRange => "invalid read range".to_owned(),
            Error::ProbeTooLarge => "probe capped at 64 MiB".to_owned(),
            Error::NodeUnavailable { node } => join("TRAINPOOL_NODE_UNAVAILABLE: ", uuid_text(*node).as_str()),
            Error::PeerUnavailable => "TRAINPOOL_NODE_UNAVAILABLE".to_owned(),
            Error::NoLeader => "no leader".to_owned(),
            Error::DuplicateNode => "duplicate node_id: use distinct data directories per installation".to_owned(),
            Error::PeerChunk => "invalid peer chunk size".to_owned(),
            Error::PeerInventory => "peer inventory exceeds limit".to_owned(),
            Error::InventoryOwner => "invalid inventory owner".to_owned(),
            Error::BenchmarkTooLarge => "benchmark capped at 64 MiB per directed link".to_owned(),
            Error::BenchmarkSelf => "cannot benchmark self".to_owned(),
            Error::MigrationHere => "migration destination equals source".to_owned(),
            Error::MigrationStale => "migration requires current committed block".to_owned(),
            Error::MigrationDestination => "destination unavailable".to_owned(),
            Error::NoCuda => "TRAINPOOL_NO_CUDA: no eligible primary GPU".to_owned(),
            Error::WorkingSet { stage } => join(join("TRAINPOOL_UNSUPPORTED_WORKING_SET: ", stage.as_str()).as_str(), " exceeds primary GPU capacity"),
            Error::NoCudaNode { node } => join(join("TRAINPOOL_NO_CUDA: node ", uuid_text(*node).as_str()).as_str(), " is a memory provider only"),
            Error::FrameLimit => "control frame exceeds limit".to_owned(),
            Error::ProtocolVersion { received } => join("TRAINPOOL_PROTOCOL_VERSION: expected 1, received ", decimal_text(*received as u64).as_str()),
            Error::AuthFailed => "TRAINPOOL_AUTH_FAILED".to_owned(),
            Error::SecretMismatch => "TRAINPOOL_AUTH_FAILED: cluster secret mismatch".to_owned(),
            Error::ClusterMismatch => "TRAINPOOL_CLUSTER_MISMATCH".to_owned(),
            Error::ProtocolFailure => "protocol failure".to_owned(),
            Error::OtherCluster => "different cluster".to_owned(),
            Error::DiscoveryVersion => "TRAINPOOL_PROTOCOL_VERSION: incompatible discovery packet".to_owned(),
            Error::DiscoveryStale => "stale discovery packet (check clock synchronization)".to_owned(),
            Error::PeerAddress => "invalid peer address".to_owned(),
            Error::UnknownKey { key } => join("unknown configuration key: ", key.as_str()),
            Error::RamLimitOverflow => "RAM limit overflow".to_owned(),
            Error::BenchmarkOverflow => "benchmark size overflow".to_owned(),
            Error::NumberEmpty => "cannot parse integer from empty string".to_owned(),
            Error::NumberDigit => "invalid digit found in string".to_owned(),
            Error::NumberRange => "number too large to fit in target type".to_owned(),
            Error::SpillDisabled => "experimental disk spill: not implemented".to_owned(),
            Error::MissingProgram => "missing program to execute".to_owned(),
            Error::InvalidPlan => "TRAINPOOL_INVALID_PLAN: missing job_id".to_owned(),
            Error::SegmentSize => "invalid UDP GRO segment size".to_owned(),
            Error::PortOccupied { address, cause } => join(join(join("TRAINPOOL_LOCAL_DAEMON_UNAVAILABLE: a process is listening on ", address.as_str()).as_str(), ", but TrainPool could not use it (port occupied or authentication mismatch): ").as_str(), cause.as_str()),
            Error::NotLoopback { address } => join("TRAINPOOL_LOCAL_DAEMON_UNAVAILABLE: refusing to embed a runtime for non-loopback address ", address.as_str()),
            Error::StartFailed { address, cause } => join(join(join("TRAINPOOL_LOCAL_DAEMON_START_FAILED: could not start the local runtime on ", address.as_str()).as_str(), ": ").as_str(), cause.as_str()),
            Error::RuntimeNotReady { cause } => join("TRAINPOOL_LOCAL_DAEMON_START_FAILED: local runtime did not become ready: ", cause.as_str()),
            Error::SdkMissing => "TRAINPOOL_PYTHON_SDK_NOT_FOUND\n\nThe Python interpreter selected by TrainPool does not contain\ntrainpool_torch.\n\nInstall the TrainPool Python adapter in this environment and retry.".to_owned(),
            Error::Config { fault } => fault.message(),
            Error::Told { text } => text.clone(),
        }
    }
}

} // verus!
