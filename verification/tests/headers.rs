use quicpacket::header::MAX_CID_LEN;
use quicpacket::reply::negotiate_version_with;
use quicpacket::{negotiate_version, retry, Error, Header, Octets, Type, PROTOCOL_VERSION};

fn header(ty: Type, version: u32) -> Header {
    Header {
        ty,
        version,
        dcid: vec![0x01, 0xff],
        scid: vec![0x0a],
        odcid: None,
        pkt_num: 0,
        pkt_num_len: 0,
        token: None,
        versions: None,
        key_phase: false,
    }
}

fn written(hdr: &Header, len: usize) -> (Result<(), Error>, usize, Vec<u8>) {
    let mut d = vec![0xee; len];
    let (res, off) = {
        let mut b = Octets::with_slice(&mut d);
        (hdr.to_bytes(&mut b), b.off())
    };
    (res, off, d)
}

#[test]
fn bytes_of_a_handshake_header() {
    let mut hdr = header(Type::Handshake, 0x0102_0304);
    hdr.pkt_num_len = 3;
    let (res, off, d) = written(&hdr, 12);
    assert_eq!(res, Ok(()));
    assert_eq!(off, 10);
    assert_eq!(d, [0xe2, 1, 2, 3, 4, 2, 0x01, 0xff, 1, 0x0a, 0xee, 0xee]);
}

#[test]
fn bytes_of_an_initial_header() {
    let mut hdr = header(Type::Initial, 0x0102_0304);
    hdr.pkt_num_len = 1;
    let (res, off, d) = written(&hdr, 11);
    assert_eq!(res, Ok(()));
    assert_eq!(off, 11);
    assert_eq!(d, [0xc0, 1, 2, 3, 4, 2, 0x01, 0xff, 1, 0x0a, 0x00]);

    hdr.token = Some(vec![0x77; 64]);
    let (res, off, d) = written(&hdr, 100);
    assert_eq!(res, Ok(()));
    assert_eq!(off, 76);
    assert_eq!(&d[10..14], &[0x40, 0x40, 0x77, 0x77]);
    assert_eq!(&d[75..78], &[0x77, 0xee, 0xee]);
}

#[test]
fn bytes_of_a_short_header() {
    let mut hdr = header(Type::Application, 0);
    hdr.pkt_num_len = 2;
    hdr.key_phase = true;
    assert_eq!(written(&hdr, 3), (Ok(()), 3, vec![0x45, 0x01, 0xff]));
    hdr.key_phase = false;
    assert_eq!(written(&hdr, 3), (Ok(()), 3, vec![0x41, 0x01, 0xff]));
    // A length that takes more bits than there are for it loses the one of the
    // key phase.
    hdr.pkt_num_len = 0x100;
    assert_eq!(written(&hdr, 3), (Ok(()), 3, vec![0x7b, 0x01, 0xff]));
}

#[test]
fn first_byte_of_an_overlong_packet_number() {
    let mut hdr = header(Type::ZeroRTT, 1);
    hdr.pkt_num_len = 16;
    assert_eq!(written(&hdr, 10).2[0], 0xdf);
    hdr.pkt_num_len = 0x22;
    assert_eq!(written(&hdr, 10).2[0], 0xf1);
}

#[test]
fn version_negotiation_header_is_not_written() {
    let mut hdr = header(Type::VersionNegotiation, 0);
    hdr.versions = Some(vec![1]);
    assert_eq!(written(&hdr, 4), (Err(Error::InvalidPacket), 0, vec![0xee; 4]));
}

#[test]
fn header_is_written_as_far_as_there_is_room() {
    let hdr = header(Type::Handshake, 0x0102_0304);
    assert_eq!(written(&hdr, 0), (Err(Error::BufferTooShort), 0, vec![]));
    assert_eq!(
        written(&hdr, 4),
        (Err(Error::BufferTooShort), 1, vec![0xe0, 0xee, 0xee, 0xee]),
    );
    assert_eq!(
        written(&hdr, 7),
        (Err(Error::BufferTooShort), 6, vec![0xe0, 1, 2, 3, 4, 2, 0xee]),
    );
    assert_eq!(written(&hdr, 9).0, Err(Error::BufferTooShort));
    assert_eq!(written(&hdr, 10).0, Ok(()));
}

#[test]
fn length_of_a_connection_id_has_one_byte() {
    let mut hdr = header(Type::Handshake, 1);
    hdr.dcid = vec![5; 257];
    let (res, off, d) = written(&hdr, 300);
    assert_eq!(res, Ok(()));
    assert_eq!(off, 265);
    assert_eq!(d[5], 1);
}

#[test]
fn every_type_is_read_back() {
    for ty in [Type::Initial, Type::ZeroRTT, Type::Handshake, Type::Retry, Type::Application] {
        for pkt_num_len in 1..5 {
            let mut hdr = header(ty, if ty == Type::Application { 0 } else { 7 });
            hdr.pkt_num_len = pkt_num_len;
            if ty == Type::Retry {
                hdr.odcid = Some(vec![4; MAX_CID_LEN as usize]);
                hdr.token = Some(vec![6, 7]);
            }
            if ty == Type::Initial {
                hdr.token = Some(vec![9; 70]);
            }
            if ty == Type::Application {
                hdr.scid = vec![];
                hdr.key_phase = true;
            }
            let (res, off, mut d) = written(&hdr, 200);
            assert_eq!(res, Ok(()));
            let read = Header::from_slice(&mut d[..off], 2).unwrap();
            // The packet number and the key phase are protected.
            hdr.pkt_num_len = 0;
            hdr.key_phase = false;
            assert_eq!(read, hdr);
        }
    }
}

#[test]
fn no_token_is_read_back_as_an_empty_one() {
    let (_, off, mut d) = written(&header(Type::Initial, 7), 50);
    let read = Header::from_slice(&mut d[..off], 0).unwrap();
    assert_eq!(read.token, Some(vec![]));
}

#[test]
fn token_of_a_retry_packet_goes_on_to_its_end() {
    let mut hdr = header(Type::Retry, 7);
    hdr.odcid = Some(vec![]);
    hdr.token = Some(vec![6, 7]);
    let (_, off, mut d) = written(&hdr, 20);
    assert_eq!(off, 13);
    let read = Header::from_slice(&mut d[..15], 0).unwrap();
    assert_eq!(read.token, Some(vec![6, 7, 0xee, 0xee]));
}

#[test]
fn read_header_is_read_again() {
    let mut d = [
        0xcd, 0, 0, 0, 9, 2, 1, 2, 3, 3, 4, 5, 0x40, 0x02, 8, 9, 1, 1, 1,
    ];
    let read = Header::from_slice(&mut d, 0).unwrap();
    assert_eq!(read.ty, Type::Initial);
    assert_eq!(read.version, 9);
    assert_eq!(read.dcid, vec![1, 2]);
    assert_eq!(read.scid, vec![3, 4, 5]);
    assert_eq!(read.token, Some(vec![8, 9]));
    let (res, off, mut d) = written(&read, 30);
    assert_eq!(res, Ok(()));
    assert_eq!(Header::from_slice(&mut d[..off], 0), Ok(read));
}

#[test]
fn headers_that_are_cut_off() {
    let mut hdr = header(Type::Initial, 7);
    hdr.token = Some(vec![6, 7]);
    let (_, off, mut d) = written(&hdr, 20);
    assert_eq!(off, 13);
    for len in 0..off {
        let mut b = Octets::with_slice(&mut d[..len]);
        assert_eq!(Header::from_bytes(&mut b, 0), Err(Error::BufferTooShort));
    }
    let (_, off, mut d) = written(&header(Type::Application, 0), 20);
    assert_eq!(off, 3);
    assert_eq!(Header::from_slice(&mut d[..3], 3), Err(Error::BufferTooShort));
    assert_eq!(Header::from_slice(&mut d[..0], 0), Err(Error::BufferTooShort));
}

#[test]
fn position_after_a_header_that_is_refused() {
    // The version, the length of the connection ID, and the connection ID.
    let mut d = [0xc0, 0xff, 0, 0, 0x17, 21, 1, 2];
    for (len, off) in [(0, 0), (3, 1), (5, 5), (6, 6)] {
        let mut b = Octets::with_slice(&mut d[..len]);
        assert!(Header::from_bytes(&mut b, 0).is_err());
        assert_eq!(b.off(), off);
    }
    assert_eq!(Header::from_slice(&mut d, 0), Err(Error::InvalidPacket));
    d[4] = 0x18;
    assert_eq!(Header::from_slice(&mut d, 0), Err(Error::BufferTooShort));
}

#[test]
fn long_connection_ids_are_refused() {
    for ty in [Type::Initial, Type::ZeroRTT, Type::Handshake] {
        for (dcid, scid) in [(21, 0), (0, 21), (255, 255)] {
            let mut hdr = header(ty, PROTOCOL_VERSION);
            hdr.dcid = vec![1; dcid];
            hdr.scid = vec![1; scid];
            let (res, off, mut d) = written(&hdr, 600);
            assert_eq!(res, Ok(()));
            assert_eq!(Header::from_slice(&mut d[..off], 0), Err(Error::InvalidPacket));
        }
    }
}

#[test]
fn long_original_connection_id_is_refused() {
    let mut hdr = header(Type::Retry, 7);
    hdr.odcid = Some(vec![1; 21]);
    hdr.token = Some(vec![]);
    let (res, off, mut d) = written(&hdr, 60);
    assert_eq!(res, Ok(()));
    assert_eq!(Header::from_slice(&mut d[..off], 0), Err(Error::InvalidPacket));
}

#[test]
fn versions_are_read() {
    let mut d = [0x80, 0, 0, 0, 0, 0, 0, 0, 0, 0, 1, 0xff, 0, 0, 0x17, 9];
    let read = Header::from_slice(&mut d[..15], 0).unwrap();
    assert_eq!(read.ty, Type::VersionNegotiation);
    assert_eq!(read.versions, Some(vec![1, PROTOCOL_VERSION]));
    assert_eq!(Header::from_slice(&mut d, 0), Err(Error::BufferTooShort));
    let read = Header::from_slice(&mut d[..7], 0).unwrap();
    assert_eq!(read.versions, Some(vec![]));
}

#[test]
fn bytes_of_a_version_negotiation_packet() {
    let mut d = [0xee; 16];
    assert_eq!(negotiate_version_with(0x2a, &[1, 2], &[3], &mut d), Ok(14));
    assert_eq!(d, [0xaa, 0, 0, 0, 0, 2, 1, 2, 1, 3, 0xff, 0, 0, 0x17, 0xee, 0xee]);
    assert_eq!(negotiate_version_with(0xff, &[1, 2], &[3], &mut d), Ok(14));
    assert_eq!(d[0], 0xff);
    assert_eq!(
        negotiate_version_with(0, &[1, 2], &[3], &mut d[..13]),
        Err(Error::BufferTooShort),
    );
}

#[test]
fn version_negotiation_packet_is_read_back() {
    let mut d = [0xee; 64];
    let len = negotiate_version(&[1, 2, 3], &[4, 5], &mut d).unwrap();
    assert_eq!(len, 16);
    assert!(d[0] >= 0x80);
    assert_eq!(d[16], 0xee);
    let read = Header::from_slice(&mut d[..len], 0).unwrap();
    assert_eq!(read.ty, Type::VersionNegotiation);
    assert_eq!(read.version, 0);
    assert_eq!(read.dcid, vec![1, 2, 3]);
    assert_eq!(read.scid, vec![4, 5]);
    assert_eq!(read.versions, Some(vec![PROTOCOL_VERSION]));
    assert_eq!(negotiate_version(&[1, 2, 3], &[4, 5], &mut d[..15]), Err(Error::BufferTooShort));
}

#[test]
fn bits_of_a_version_negotiation_packet_are_random() {
    let mut seen = Vec::new();
    for _ in 0..64 {
        let mut d = [0; 16];
        assert_eq!(negotiate_version(&[], &[], &mut d), Ok(11));
        seen.push(d[0]);
    }
    assert!(seen.iter().any(|first| *first != seen[0]));
}

#[test]
fn retry_packet_is_read_back() {
    let mut d = [0xee; 64];
    let len = retry(&[1, 2], &[3], &[4, 5, 6], &[7, 8], &mut d).unwrap();
    assert_eq!(len, 16);
    assert_eq!(&d[..17], &[0xf0, 0xff, 0, 0, 0x17, 2, 1, 2, 3, 4, 5, 6, 1, 3, 7, 8, 0xee]);
    let read = Header::from_slice(&mut d[..len], 0).unwrap();
    assert_eq!(read.ty, Type::Retry);
    assert_eq!(read.version, PROTOCOL_VERSION);
    assert_eq!(read.dcid, vec![1, 2]);
    assert_eq!(read.scid, vec![4, 5, 6]);
    assert_eq!(read.odcid, Some(vec![3]));
    assert_eq!(read.token, Some(vec![7, 8]));
    assert_eq!(
        retry(&[1, 2], &[3], &[4, 5, 6], &[7, 8], &mut d[..15]),
        Err(Error::BufferTooShort),
    );
}

#[test]
fn headers_as_text() {
    let mut hdr = header(Type::Initial, PROTOCOL_VERSION);
    hdr.token = Some(vec![0x0c, 0xd0]);
    assert_eq!(hdr.fmt(), "Initial version=ff000017 dcid=01ff scid=0a token=0cd0");

    let mut hdr = header(Type::Retry, 0);
    hdr.odcid = Some(vec![]);
    hdr.token = Some(vec![0x9e]);
    assert_eq!(hdr.fmt(), "Retry version=0 dcid=01ff scid=0a odcid= token=9e");

    let mut hdr = header(Type::VersionNegotiation, 0);
    hdr.versions = Some(vec![PROTOCOL_VERSION, 1, 0x10]);
    assert_eq!(
        hdr.fmt(),
        "VersionNegotiation version=0 dcid=01ff scid=0a versions=[ff000017, 1, 10]",
    );
    hdr.versions = Some(vec![]);
    assert_eq!(hdr.fmt(), "VersionNegotiation version=0 dcid=01ff scid=0a versions=[]");

    assert_eq!(header(Type::ZeroRTT, 0xabc).fmt(), "ZeroRTT version=abc dcid=01ff scid=0a");
    assert_eq!(header(Type::Handshake, 7).fmt(), "Handshake version=7 dcid=01ff scid=0a");

    let mut hdr = header(Type::Application, 7);
    assert_eq!(hdr.fmt(), "Application dcid=01ff key_phase=false");
    hdr.key_phase = true;
    hdr.dcid = vec![];
    assert_eq!(hdr.fmt(), "Application dcid= key_phase=true");
}

#[test]
fn headers_are_shown_as_their_text() {
    let mut hdr = header(Type::Initial, PROTOCOL_VERSION);
    hdr.token = Some(vec![0x0c, 0xd0]);
    assert_eq!(
        format!("{:?}", hdr),
        "Initial version=ff000017 dcid=01ff scid=0a token=0cd0",
    );
    assert_eq!(format!("{:#?}", hdr), hdr.fmt());
    assert_eq!(
        format!("[{:?}]", header(Type::Application, 0)),
        "[Application dcid=01ff key_phase=false]",
    );
}

#[test]
fn form_of_a_header() {
    assert!(Header::is_long(0x80));
    assert!(Header::is_long(0xff));
    assert!(!Header::is_long(0x7f));
    assert!(!Header::is_long(0));
}
