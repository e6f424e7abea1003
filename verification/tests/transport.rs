use std::collections::HashSet;
use trainpool::address::{SocketAddress, LOCALHOST};
use trainpool::config::Config;
use trainpool::double::Double;
use trainpool::error::Error;
use trainpool::memory::block::{BlockState, Location, MemoryBlockHandle};
use trainpool::protocol::{frame, frame_size, Wire, MAX_FRAME};
use trainpool::runtime::session::response;
use trainpool::transport::reader::{request_heard, request_missed, request_packet, read_wait, Reader, Taken};
use trainpool::transport::sender::{abort_packet, Estimate, SendPayload, Times};
use trainpool::transport::transmission::{Transmission, Turn};
use trainpool::transport::udp::{
    bitmap_contains, bitmap_payload, parse_bitmap, Kind, Packet, TransferStats, ACK_BITS, MAX_DATAGRAM,
};
use trainpool::transport::udp_io::{as_batch, max_gso_segments, restore_datagrams, split_datagrams};
use trainpool::transport::{client_answer, client_check, server_auth, transcript};

fn d(x: f64) -> Double {
    Double { bits: x.to_bits() }
}

fn packet(kind: Kind, payload: &[u8]) -> Packet {
    Packet {
        kind,
        flags: 0,
        transfer_id: 1,
        object_id: 2,
        block_id: 3,
        lease_token: 4,
        generation: 5,
        sequence_id: 6,
        offset: 7,
        total_size: 8,
        payload: payload.to_vec(),
    }
}

fn handle(size: usize) -> MemoryBlockHandle {
    MemoryBlockHandle {
        id: 21,
        job_id: 22,
        size: size as u64,
        owner_node: 23,
        owner_incarnation: 24,
        location_type: Location::Ram { node_id: 23 },
        checksum: None,
        state: BlockState::Writing,
        lease_token: 25,
        lease_expires_ms: u64::MAX,
        generation: 0,
        tensor: None,
    }
}

#[test]
fn datagram_is_mtu_safe_authenticated_and_corruption_is_rejected() {
    let encoded = packet(Kind::Data, &[9; 1200]).encode(Some("secret")).unwrap();
    assert!(encoded.len() <= MAX_DATAGRAM);
    assert_eq!(Packet::decode(&encoded, Some("secret")).unwrap().payload.len(), 1200);
    assert!(Packet::decode(&encoded, Some("wrong")).is_err());
    let mut corrupt = encoded;
    *corrupt.last_mut().unwrap() ^= 1;
    assert!(Packet::decode(&corrupt, Some("secret")).is_err());
}

#[test]
fn a_datagram_holds_every_field() {
    let d = packet(Kind::Nack, &[1, 2, 3]).encode(None).unwrap();
    assert_eq!(&d[..6], b"TPU1\x01\x05");
    let p = Packet::decode(&d, None).unwrap();
    assert_eq!(p.kind, Kind::Nack);
    assert_eq!((p.transfer_id, p.object_id, p.block_id, p.lease_token), (1, 2, 3, 4));
    assert_eq!((p.generation, p.sequence_id, p.offset, p.total_size), (5, 6, 7, 8));
    assert_eq!(p.payload, vec![1, 2, 3]);
    assert!(matches!(packet(Kind::Data, &[0; 1235]).encode(None), Err(Error::DatagramTooLong)));
    assert!(matches!(Packet::decode(&d[..100], None), Err(Error::DatagramLength)));
    let with = |at: usize, value: u8| {
        let mut e = d.clone();
        e[at] = value;
        Packet::decode(&e, None).unwrap_err()
    };
    assert!(matches!(with(0, 0), Error::DatagramMagic));
    assert!(matches!(with(4, 2), Error::DatagramVersion));
    assert!(matches!(with(5, 11), Error::DatagramKind { code: 11 }));
    assert!(matches!(Packet::decode(&d[..168], None), Err(Error::DatagramPayload)));
    assert!(matches!(with(168, 9), Error::DatagramChecksum));
    assert!(matches!(Packet::decode(&d, Some("key")), Err(Error::DatagramAuth)));
}

#[test]
fn bitmap_represents_sparse_out_of_order_delivery() {
    let mut bits = vec![false; ACK_BITS];
    for index in [0, 1, 2, 4, 5, 7, 8, 9] {
        bits[index] = true;
    }
    let payload = bitmap_payload(0, &bits, 64);
    let (base, bitmap, window) = parse_bitmap(&payload).unwrap();
    assert_eq!(base, 0);
    assert_eq!(window, 64);
    assert!(bitmap_contains(&bitmap, 7));
    assert!(!bitmap_contains(&bitmap, 3));
    assert!(!bitmap_contains(&bitmap, 6));
    assert!(!bitmap_contains(&bitmap, 256));
    assert!(matches!(parse_bitmap(&payload[1..]), Err(Error::Bitmap)));
    assert_eq!(parse_bitmap(&bitmap_payload(512, &[], 70_000)).unwrap().2, 65_535);
}

/// A receiver that loses every so-manieth packet once, and an end and its
/// confirmation if it is told to.
struct Lossy {
    window: usize,
    every: Option<u32>,
    drop_completion: bool,
    start: Option<Packet>,
    received: Vec<u8>,
    present: Vec<bool>,
    dropped: HashSet<u32>,
    dropped_fin: bool,
    dropped_complete: bool,
}

impl Lossy {
    fn take(&mut self, packet: &Packet) -> Option<Packet> {
        match packet.kind {
            Kind::Start => {
                let length = u64::from_be_bytes(packet.payload[..8].try_into().unwrap()) as usize;
                self.received = vec![0; length];
                self.present = vec![false; packet.sequence_id as usize];
                self.start = Some(packet.duplicate());
                Some(response(packet, Kind::StartAck, (self.window as u16).to_be_bytes().to_vec()))
            }
            Kind::Data => {
                let sequence = packet.sequence_id;
                if self.every.is_some_and(|every| sequence % every == 0) && self.dropped.insert(sequence) {
                    return None;
                }
                let begin = (packet.offset - self.start.as_ref().unwrap().offset) as usize;
                self.received[begin..begin + packet.payload.len()].copy_from_slice(&packet.payload);
                self.present[sequence as usize] = true;
                let base = (sequence as usize / ACK_BITS) * ACK_BITS;
                let bits: Vec<bool> =
                    (base..base + ACK_BITS).map(|i| self.present.get(i).copied().unwrap_or(false)).collect();
                Some(response(packet, Kind::Ack, bitmap_payload(base as u32, &bits, self.window)))
            }
            Kind::Fin => {
                if self.drop_completion && !self.dropped_fin {
                    self.dropped_fin = true;
                    return None;
                }
                assert!(self.present.iter().all(|value| *value));
                assert_eq!(packet.payload, blake3::hash(&self.received).as_bytes());
                if self.drop_completion && !self.dropped_complete {
                    self.dropped_complete = true;
                    return None;
                }
                Some(response(packet, Kind::Complete, vec![]))
            }
            Kind::Abort => panic!("successful transfer was aborted"),
            _ => None,
        }
    }
}

/// Sends a chunk to a receiver that answers at once, through the wire format.
fn send(
    config: &Config,
    request: SendPayload,
    receiver: &mut dyn FnMut(&Packet) -> Option<Packet>,
) -> Result<TransferStats, Error> {
    let secret = config.cluster_secret.as_deref();
    let mut t = Transmission::begin(request, config)?;
    let mut waiting: Vec<Packet> = vec![];
    let sample = Estimate { rto_ns: 10_000_000, rtt_ms: d(1.0) };
    for _ in 0..100_000 {
        let times = Times { rto_ms: d(t.sender.rto_ns as f64 / 1e6), rtt_ms: d(1.0), elapsed_ms: d(5.0) };
        let mut deliver = |packet: &Packet, waiting: &mut Vec<Packet>| {
            let wire = packet.encode(secret).unwrap();
            let there = Packet::decode(&wire, secret).unwrap();
            if let Some(reply) = receiver(&there) {
                let wire = reply.encode(secret).unwrap();
                waiting.push(Packet::decode(&wire, secret).unwrap());
            }
        };
        match t.turn() {
            Turn::Ask { packet } => {
                waiting.clear();
                deliver(&packet, &mut waiting);
                if waiting.is_empty() {
                    t.quiet()?;
                } else {
                    let reply = waiting.remove(0);
                    t.heard(&reply, sample, times)?;
                }
            }
            Turn::Tell { packet, pace: _ } => deliver(&packet, &mut waiting),
            Turn::Listen { after: _ } => {
                if waiting.is_empty() {
                    t.quiet()?;
                } else {
                    let reply = waiting.remove(0);
                    t.heard(&reply, sample, times)?;
                }
            }
            Turn::Done => return Ok(t.sender.stats),
        }
    }
    panic!("a transfer must end")
}

#[test]
fn selective_repeat_recovers_loss_and_dropped_completion_without_replaying_windows() {
    for (loss_every, drop_completion) in [(None, false), (Some(1000), false), (Some(100), false), (Some(20), true)] {
        let mut config = Config::default();
        config.chunk_bytes = 512 * 1024;
        config.udp_initial_rto_ms = 10;
        config.udp_pacing_micros = 1;
        config.udp_max_retries = 8;
        config.cluster_secret = Some("loss-test".to_string());
        config.udp_window_packets = 64;
        let payload: Vec<u8> = (0..config.chunk_bytes).map(|index| (index % 251) as u8).collect();
        let mut receiver = Lossy {
            window: 64,
            every: loss_every,
            drop_completion,
            start: None,
            received: vec![],
            present: vec![],
            dropped: HashSet::new(),
            dropped_fin: false,
            dropped_complete: false,
        };
        let request = SendPayload {
            handle: handle(payload.len()),
            transfer_id: 77,
            offset: 0,
            payload: payload.clone(),
            read_response: false,
        };
        let stats = send(&config, request, &mut |p| receiver.take(p)).unwrap();
        let dropped = receiver.dropped.len();
        assert_eq!(receiver.received, payload);
        assert_eq!(stats.retransmitted_bytes, dropped as u64 * 1200);
        assert!(stats.retransmitted_datagrams >= dropped as u64);
        assert!(stats.ack_count > 1, "window must have multiple packets in flight");
        assert!(f64::from_bits(stats.retransmission_timeout_ms.bits) >= 10.0);
        assert_eq!(stats.payload_bytes, payload.len() as u64);
    }
}

#[test]
fn retry_timeout_is_bounded_and_emits_abort() {
    let mut config = Config::default();
    config.chunk_bytes = 4096;
    config.udp_initial_rto_ms = 10;
    config.udp_max_retries = 2;
    config.udp_pacing_micros = 1;
    let request = || SendPayload {
        handle: handle(4096),
        transfer_id: 78,
        offset: 0,
        payload: vec![7; 4096],
        read_response: false,
    };
    let mut kinds = vec![];
    let error = send(&config, request(), &mut |p| {
        kinds.push(p.kind);
        None
    })
    .unwrap_err();
    assert!(error.message().contains("TRAINPOOL_TRANSFER_TIMEOUT"));
    kinds.push(abort_packet(&request()).kind);
    assert_eq!(kinds.len(), 4);
    assert_eq!(kinds.last(), Some(&Kind::Abort));
}

#[test]
fn chunks_that_cannot_be_sent_are_refused() {
    let config = Config::default();
    let refused = |size: usize, offset: u64, length: usize| {
        let request = SendPayload {
            handle: handle(size),
            transfer_id: 1,
            offset,
            payload: vec![1; length],
            read_response: false,
        };
        match Transmission::begin(request, &config) {
            Ok(_) => panic!("the chunk was taken"),
            Err(e) => e,
        }
    };
    assert!(matches!(refused(10, 0, 0), Error::TransferEmpty));
    assert!(matches!(refused(10, 5, 6), Error::TransferRange));
    assert!(matches!(refused(10, u64::MAX, 6), Error::TransferRange));
    let mut small = Config::default();
    small.chunk_bytes = 4096;
    let request = SendPayload {
        handle: handle(5000),
        transfer_id: 1,
        offset: 0,
        payload: vec![1; 4097],
        read_response: false,
    };
    assert!(matches!(Transmission::begin(request, &small), Err(Error::TransferTooLong)));
}

#[test]
fn a_receiver_that_is_lost_midway_ends_the_transfer() {
    let config = Config::default();
    let request = || SendPayload {
        handle: handle(9000),
        transfer_id: 5,
        offset: 0,
        payload: vec![3; 9000],
        read_response: true,
    };
    let lost = send(&config, request(), &mut |p| match p.kind {
        Kind::Start => Some(response(p, Kind::StartAck, vec![0, 1])),
        _ => None,
    });
    assert!(matches!(lost, Err(Error::RetryTimeout)));
    let unconfirmed = send(&config, request(), &mut |p| match p.kind {
        Kind::Start => Some(response(p, Kind::StartAck, vec![])),
        Kind::Data => {
            assert_eq!(p.flags, 1);
            Some(response(p, Kind::Ack, bitmap_payload(0, &[true; 256], 64)))
        }
        _ => Some(response(p, Kind::Nack, vec![])),
    });
    assert!(matches!(unconfirmed, Err(Error::FinTimeout)));
    let told = send(&config, request(), &mut |p| Some(response(p, Kind::Error, b"no room \xff".to_vec())));
    assert_eq!(told.unwrap_err().message(), "no room \u{fffd}");
}

#[test]
fn a_complaint_has_only_the_missing_packets_sent_again() {
    let config = Config::default();
    let request =
        SendPayload { handle: handle(6000), transfer_id: 5, offset: 0, payload: vec![3; 6000], read_response: false };
    let mut seen: Vec<u32> = vec![];
    let stats = send(&config, request, &mut |p| match p.kind {
        Kind::Start => Some(response(p, Kind::StartAck, vec![])),
        Kind::Data => {
            seen.push(p.sequence_id);
            match seen.len() {
                5 => Some(response(p, Kind::Nack, bitmap_payload(0, &[false, true, false, true, false], 64))),
                7 => Some(response(p, Kind::Ack, bitmap_payload(0, &[true; 5], 64))),
                _ => None,
            }
        }
        _ => Some(response(p, Kind::Complete, vec![])),
    })
    .unwrap();
    assert_eq!(seen, vec![0, 1, 2, 3, 4, 1, 3]);
    assert_eq!(stats.retransmitted_datagrams, 2);
    assert_eq!(stats.nack_count, 1);
}

#[test]
fn a_window_goes_out_at_its_pace() {
    let mut config = Config::default();
    config.udp_window_packets = 40;
    config.udp_pacing_micros = 100;
    let request = SendPayload {
        handle: handle(60_000),
        transfer_id: 5,
        offset: 0,
        payload: vec![3; 60_000],
        read_response: false,
    };
    let mut t = Transmission::begin(request, &config).unwrap();
    let sample = Estimate { rto_ns: 1, rtt_ms: d(1.0) };
    let times = Times { rto_ms: d(1.0), rtt_ms: d(1.0), elapsed_ms: d(1.0) };
    let start = match t.turn() {
        Turn::Ask { packet } => packet,
        _ => panic!("a start goes out first"),
    };
    assert_eq!(start.sequence_id, 50);
    assert!(t.heard(&response(&start, Kind::StartAck, vec![]), sample, times).unwrap());
    assert_eq!(t.sender.rto_ns, 1);
    let mut paces = vec![];
    loop {
        match t.turn() {
            Turn::Tell { packet: _, pace } => paces.push(pace),
            Turn::Listen { after } => {
                assert_eq!(after, 4000);
                break;
            }
            _ => panic!("a round goes out"),
        }
    }
    assert_eq!(paces.len(), 40);
    assert_eq!(paces[31], Some(3200));
    assert_eq!(paces.iter().filter(|p| p.is_some()).count(), 1);
    t.stranger().unwrap();
    t.quiet().unwrap();
    assert_eq!(t.sender.window, 40);
    while let Turn::Tell { .. } = t.turn() {}
    assert_eq!(t.sender.pace(10), 2000);
    t.quiet().unwrap();
    assert_eq!(t.sender.window, 20);
    assert_eq!(t.sender.rto_ns, 2);
}

fn serve(reader: &mut Reader, message: &[u8], order: &[u32]) -> Vec<Kind> {
    let mut kinds = vec![];
    for sequence in order {
        let mut p = packet(Kind::Data, &[]);
        p.transfer_id = 9;
        p.sequence_id = *sequence;
        let begin = *sequence as usize * 1200;
        p.payload = message[begin..(begin + 1200).min(message.len())].to_vec();
        match reader.take(&p, d(0.0)).unwrap() {
            Taken::Reply { packet } => kinds.push(packet.kind),
            Taken::Silent => {}
            Taken::Complete { .. } => panic!("no end was sent"),
        }
    }
    kinds
}

fn start_for(message: &[u8], count: u32) -> Packet {
    let mut start = packet(Kind::Start, &(message.len() as u64).to_be_bytes());
    start.payload.extend_from_slice(blake3::hash(message).as_bytes());
    start.transfer_id = 9;
    start.sequence_id = count;
    start
}

#[test]
fn a_read_comes_together_in_any_order() {
    let config = Config::default();
    let message: Vec<u8> = (0..11_000).map(|i| (i % 253) as u8).collect();
    let (mut reader, ack) = Reader::begin(handle(11_000), &start_for(&message, 10), &config).unwrap();
    assert_eq!(ack.kind, Kind::StartAck);
    assert_eq!(ack.flags, 1);
    assert_eq!(ack.payload, vec![0, 64]);
    assert_eq!(serve(&mut reader, &message, &[3, 1, 0, 3, 9, 8, 7, 2]), vec![]);
    let mut fin = packet(Kind::Fin, blake3::hash(&message).as_bytes());
    fin.transfer_id = 9;
    match reader.take(&fin, d(0.0)).unwrap() {
        Taken::Reply { packet } => {
            assert_eq!(packet.kind, Kind::Nack);
            let (base, bitmap, _) = parse_bitmap(&packet.payload).unwrap();
            assert_eq!(base, 0);
            let missing: Vec<usize> = (0..256).filter(|i| bitmap_contains(&bitmap, *i)).collect();
            assert_eq!(missing, vec![4, 5, 6]);
        }
        _ => panic!("packets are missing"),
    }
    assert_eq!(serve(&mut reader, &message, &[4, 5, 6]), vec![Kind::Ack, Kind::Ack]);
    match reader.take(&fin, d(12.0)).unwrap() {
        Taken::Complete { packet } => assert_eq!(packet.kind, Kind::Complete),
        _ => panic!("the chunk is complete"),
    }
    assert_eq!(reader.buffer, message);
    assert_eq!(reader.stats.duplicate_datagrams, 1);
    assert_eq!(reader.stats.out_of_order_datagrams, 5);
    assert_eq!(reader.stats.payload_bytes, 11_000);
    assert_eq!(f64::from_bits(reader.stats.elapsed_ms.bits), 12.0);
}

#[test]
fn reads_that_go_wrong_say_why() {
    let mut config = Config::default();
    config.udp_max_retries = 1;
    let message = vec![8; 2400];
    let start = start_for(&message, 2);
    let begin = || Reader::begin(handle(2400), &start, &config).unwrap().0;
    let mut p = packet(Kind::Data, &[1; 1200]);
    p.transfer_id = 9;
    p.sequence_id = 2;
    assert!(matches!(begin().take(&p, d(0.0)), Err(Error::ReadSequence)));
    p.sequence_id = 1;
    p.payload = vec![1; 1201];
    assert!(matches!(begin().take(&p, d(0.0)), Err(Error::ReadData)));
    p.kind = Kind::Abort;
    assert!(matches!(begin().take(&p, d(0.0)), Err(Error::TransferAborted)));
    p.transfer_id = 10;
    assert!(matches!(begin().take(&p, d(0.0)), Ok(Taken::Silent)));
    let mut reader = begin();
    serve(&mut reader, &message, &[0, 1]);
    let mut fin = packet(Kind::Fin, &[0; 32]);
    fin.transfer_id = 9;
    assert!(matches!(reader.take(&fin, d(0.0)), Err(Error::UdpFinChanged)));
    let mut reader = begin();
    serve(&mut reader, &vec![9; 2400], &[0, 1]);
    fin.payload = blake3::hash(&message).as_bytes().to_vec();
    assert!(matches!(reader.take(&fin, d(0.0)), Err(Error::UdpChecksum)));
    let mut reader = begin();
    assert!(reader.quiet().is_ok());
    assert!(matches!(reader.quiet(), Err(Error::ReadTimeout)));
    let refused = |p: &Packet| match Reader::begin(handle(2400), p, &config) {
        Ok(_) => panic!("the start was taken"),
        Err(e) => e,
    };
    assert!(matches!(refused(&packet(Kind::Start, &[0; 39])), Error::UdpStart));
    assert!(matches!(refused(&start_for(&message, 0)), Error::ReadSession));
    config.chunk_bytes = 4096;
    let mut large = start_for(&message, 2);
    large.payload[6] = 255;
    assert!(matches!(Reader::begin(handle(2400), &large, &config), Err(Error::ReadSession)));
}

#[test]
fn a_read_is_asked_for_within_bounds() {
    let mut config = Config::default();
    config.chunk_bytes = 4096;
    config.udp_max_retries = 2;
    let p = request_packet(&handle(9000), 3, 40, 4096, &config).unwrap();
    assert_eq!((p.kind, p.transfer_id, p.offset, p.sequence_id), (Kind::ReadRequest, 3, 40, 4096));
    assert!(matches!(request_packet(&handle(9000), 3, 40, 4097, &config), Err(Error::ReadTooLong)));
    assert!(matches!(request_heard(&packet(Kind::Start, &[]), 1), Ok(true)));
    assert!(matches!(request_heard(&packet(Kind::Start, &[]), 2), Ok(false)));
    assert_eq!(request_heard(&packet(Kind::Error, b"gone"), 1).unwrap_err().message(), "gone");
    assert_eq!(request_missed(1, &config).unwrap(), 2);
    assert!(matches!(request_missed(2, &config), Err(Error::RequestTimeout)));
    assert_eq!(read_wait(&config), 200);
    config.udp_initial_rto_ms = 10;
    assert_eq!(read_wait(&config), 80);
}

#[test]
fn segmented_send_preserves_datagram_boundaries() {
    assert_eq!(max_gso_segments(1_366), 47);
    assert_eq!(max_gso_segments(10), 64);
    let segment_size = 1_366;
    let mut encoded = vec![1; segment_size];
    encoded.extend(std::iter::repeat_n(2, segment_size));
    encoded.extend(std::iter::repeat_n(3, 700));
    assert!(as_batch(encoded.len(), 3));
    assert!(!as_batch(encoded.len(), 1));
    assert!(!as_batch(65_536, 3));
    let source = SocketAddress::V4 { ip: LOCALHOST, port: 4 };
    let batch = restore_datagrams(&encoded, Some(segment_size), source).unwrap();
    assert_eq!(batch.source, source);
    let datagrams = batch.datagrams;
    assert_eq!(datagrams.len(), 3);
    assert_eq!(datagrams[0], vec![1; segment_size]);
    assert_eq!(datagrams[1], vec![2; segment_size]);
    assert_eq!(datagrams[2], vec![3; 700]);
    assert_eq!(split_datagrams(&encoded, segment_size).concat(), encoded);
    assert_eq!(restore_datagrams(&vec![5; 9], None, source).unwrap().datagrams, vec![vec![5; 9]]);
    assert!(matches!(restore_datagrams(&vec![5; 9], Some(0), source), Err(Error::SegmentSize)));
    assert!(matches!(restore_datagrams(&vec![5; 1401], None, source), Err(Error::SegmentSize)));
}

#[test]
fn frames_have_a_length_and_a_limit() {
    let f = frame(b"{}").unwrap();
    assert_eq!(f, vec![0, 0, 0, 2, b'{', b'}']);
    assert_eq!(frame_size(&f[..4]).unwrap(), 2);
    assert!(matches!(frame_size(&[255, 255, 255, 255]), Err(Error::FrameLimit)));
    assert!(matches!(frame(&vec![0; MAX_FRAME + 1]), Err(Error::FrameLimit)));
    assert_eq!(Wire::new(5).open().unwrap(), 5);
    let old = Wire { protocol_version: 7, message: 5 };
    assert_eq!(old.open().unwrap_err().message(), "TRAINPOOL_PROTOCOL_VERSION: expected 1, received 7");
}

#[test]
fn both_sides_of_a_connection_prove_that_they_know_the_secret() {
    let mut config = Config::default();
    config.cluster_secret = Some("a secret".to_string());
    assert_eq!(
        transcript("client", 1, 2, "lab"),
        "client|00000000-0000-0000-0000-000000000001|00000000-0000-0000-0000-000000000002|lab"
    );
    let answer = client_answer(&config, 1, 2);
    let accepted = server_auth(&config, 1, &answer).unwrap();
    assert!(client_check(&config, 1, 2, &accepted).is_ok());
    assert!(client_check(&config, 3, 2, &accepted).is_err());
    assert!(server_auth(&config, 4, &answer).is_err());
    let mut other = Config::default();
    other.cluster_secret = Some("wrong secret".to_string());
    assert!(server_auth(&other, 1, &answer).is_err());
    other.cluster_secret = None;
    assert!(matches!(server_auth(&other, 1, &answer), Err(Error::SecretMismatch)));
    other.cluster_name = "another".to_string();
    assert!(matches!(server_auth(&other, 1, &answer), Err(Error::ClusterMismatch)));
}
