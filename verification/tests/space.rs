use quicpacket::crypto::derive_initial_key_material;
use quicpacket::header::{EPOCH_APPLICATION, EPOCH_COUNT, EPOCH_HANDSHAKE, EPOCH_INITIAL};
use quicpacket::stream::Stream;
use quicpacket::{Error, PktNumSpace, Type};

#[test]
fn new_space_is_empty() {
    let mut space = PktNumSpace::new();
    assert_eq!(space.largest_rx_pkt_num, 0);
    assert_eq!(space.next_pkt_num, 0);
    assert!(space.recv_pkt_need_ack.ranges.is_empty());
    assert_eq!(space.recv_pkt_num.lower, 0);
    assert!(!space.recv_pkt_num.contains(0));
    assert!(!space.ack_elicited);
    assert!(space.crypto_open.is_none());
    assert!(space.crypto_seal.is_none());
    assert_eq!(space.crypto_stream.max_rx_data, u64::MAX);
    assert_eq!(space.crypto_stream.max_tx_data, u64::MAX);
    assert!(!space.ready());
}

#[test]
fn time_goes_into_a_new_space() {
    let now = std::time::Instant::now();
    assert_eq!(PktNumSpace::new_at(now).largest_rx_pkt_time, now);
    assert!(PktNumSpace::new().largest_rx_pkt_time >= now);
}

#[test]
fn space_is_ready_when_there_is_something_to_send() {
    let mut space = PktNumSpace::new();
    space.ack_elicited = true;
    assert!(space.ready());
    space.ack_elicited = false;
    space.crypto_stream.unsent.push(1);
    assert!(space.ready());
}

#[test]
fn clearing_drops_what_is_to_be_sent() {
    let mut space = PktNumSpace::new();
    let (open, seal) = derive_initial_key_material(&[1, 2, 3], true).unwrap();
    space.crypto_open = Some(open);
    space.crypto_seal = Some(seal);
    space.next_pkt_num = 4;
    space.largest_rx_pkt_num = 9;
    space.recv_pkt_num.insert(9);
    space.ack_elicited = true;
    space.crypto_stream.unsent.push(1);
    space.clear();
    assert!(!space.ready());
    assert!(space.crypto_stream.unsent.is_empty());
    assert!(!space.ack_elicited);
    assert_eq!(space.next_pkt_num, 4);
    assert_eq!(space.largest_rx_pkt_num, 9);
    assert!(space.recv_pkt_num.contains(9));
    assert_eq!(space.overhead(), 16);
}

#[test]
fn stream_is_flushable_up_to_its_limit() {
    let mut stream = Stream::new(10, 3);
    assert!(!stream.is_flushable());
    stream.unsent.push(1);
    assert!(stream.is_flushable());
    stream.sent = 3;
    assert!(!stream.is_flushable());
}

#[test]
fn epochs_of_types() {
    assert_eq!(Type::from_epoch(EPOCH_INITIAL), Type::Initial);
    assert_eq!(Type::from_epoch(EPOCH_HANDSHAKE), Type::Handshake);
    assert_eq!(Type::from_epoch(EPOCH_APPLICATION), Type::Application);
    for e in 0..EPOCH_COUNT {
        assert_eq!(Type::from_epoch(e).to_epoch(), Ok(e));
    }
    assert_eq!(Type::ZeroRTT.to_epoch(), Ok(EPOCH_APPLICATION));
    assert_eq!(Type::Retry.to_epoch(), Err(Error::InvalidPacket));
    assert_eq!(Type::VersionNegotiation.to_epoch(), Err(Error::InvalidPacket));
}
