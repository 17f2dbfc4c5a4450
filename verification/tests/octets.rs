use quicpacket::{Error, Octets};

#[test]
fn numbers_are_written_and_read_big_endian() {
    let mut d = [0u8; 10];
    {
        let mut b = Octets::with_slice(&mut d);
        assert_eq!(b.len(), 10);
        assert_eq!(b.cap(), 10);
        assert_eq!(b.put_u8(0x01), Ok(()));
        assert_eq!(b.put_u16(0x0203), Ok(()));
        assert_eq!(b.put_u24(0xff04_0506), Ok(()));
        assert_eq!(b.put_u32(0x0708_090a), Ok(()));
        assert_eq!(b.off(), 10);
        assert_eq!(b.cap(), 0);
        assert_eq!(b.put_u8(1), Err(Error::BufferTooShort));
    }
    assert_eq!(d, [1, 2, 3, 4, 5, 6, 7, 8, 9, 10]);

    let mut b = Octets::with_slice(&mut d);
    assert_eq!(b.get_u8(), Ok(0x01));
    assert_eq!(b.get_u16(), Ok(0x0203));
    assert_eq!(b.get_u24(), Ok(0x0004_0506));
    assert_eq!(b.get_u32(), Ok(0x0708_090a));
    assert_eq!(b.get_u8(), Err(Error::BufferTooShort));
    assert_eq!(b.off(), 10);
}

#[test]
fn what_finds_no_room_is_not_written() {
    let mut d = [9u8; 3];
    {
        let mut b = Octets::with_slice(&mut d);
        assert_eq!(b.put_u32(0x0102_0304), Err(Error::BufferTooShort));
        assert_eq!(b.put_bytes(&[1, 2, 3, 4]), Err(Error::BufferTooShort));
        assert_eq!(b.put_varint(0x4000), Err(Error::BufferTooShort));
        assert_eq!(b.off(), 0);
        assert_eq!(b.put_u16(0x0102), Ok(()));
        assert_eq!(b.put_u16(0x0304), Err(Error::BufferTooShort));
        assert_eq!(b.put_u24(0x03_0405), Err(Error::BufferTooShort));
    }
    assert_eq!(d, [1, 2, 9]);
}

#[test]
fn varints_are_read() {
    let mut d = [
        0xc2, 0x19, 0x7c, 0x5e, 0xff, 0x14, 0xe8, 0x8c, 0x9d, 0x7f, 0x3e, 0x7d, 0x7b, 0xbd, 0x25,
        0x40, 0x25,
    ];
    let mut b = Octets::with_slice(&mut d);
    assert_eq!(b.get_varint(), Ok(151288809941952652));
    assert_eq!(b.get_varint(), Ok(494878333));
    assert_eq!(b.get_varint(), Ok(15293));
    assert_eq!(b.get_varint(), Ok(37));
    assert_eq!(b.get_varint(), Ok(37));
    assert_eq!(b.get_varint(), Err(Error::BufferTooShort));
}

#[test]
fn varint_that_is_cut_off_is_refused() {
    let mut d = [0x9d, 0x7f, 0x3e];
    let mut b = Octets::with_slice(&mut d);
    assert_eq!(b.get_varint(), Err(Error::BufferTooShort));
    assert_eq!(b.off(), 0);
}

#[test]
fn varints_are_written_in_as_few_bytes_as_can_be() {
    for (v, bytes) in [
        (37u64, vec![0x25u8]),
        (63, vec![0x3f]),
        (64, vec![0x40, 0x40]),
        (15293, vec![0x7b, 0xbd]),
        (16383, vec![0x7f, 0xff]),
        (16384, vec![0x80, 0x00, 0x40, 0x00]),
        (494878333, vec![0x9d, 0x7f, 0x3e, 0x7d]),
        (1073741824, vec![0xc0, 0, 0, 0, 0x40, 0, 0, 0]),
        (151288809941952652, vec![0xc2, 0x19, 0x7c, 0x5e, 0xff, 0x14, 0xe8, 0x8c]),
    ] {
        let mut d = [0u8; 8];
        {
            let mut b = Octets::with_slice(&mut d);
            assert_eq!(b.put_varint(v), Ok(()));
            assert_eq!(b.off(), bytes.len());
        }
        assert_eq!(&d[..bytes.len()], &bytes[..]);
        let mut b = Octets::with_slice(&mut d);
        assert_eq!(b.get_varint(), Ok(v));
        assert_eq!(b.off(), bytes.len());
    }
}

#[test]
fn bytes_are_taken_and_can_be_written_to() {
    let mut d = [1u8, 2, 3, 4, 5];
    {
        let mut b = Octets::with_slice(&mut d);
        assert_eq!(b.get_u8(), Ok(1));
        {
            let mut o = b.get_bytes(2).unwrap();
            assert_eq!(o.as_ref(), &[2, 3]);
            assert_eq!(o.put_u8(7), Ok(()));
            assert_eq!(o.to_vec(), vec![3]);
        }
        assert_eq!(b.off(), 3);
        assert_eq!(b.as_ref(), &[4, 5]);
        assert!(b.get_bytes(3).is_err());
        assert_eq!(b.off(), 3);
        {
            let mut o = b.peek_bytes(1).unwrap();
            assert_eq!(o.put_u8(8), Ok(()));
        }
        assert_eq!(b.off(), 3);
        assert!(b.peek_bytes(3).is_err());
    }
    assert_eq!(d, [1, 7, 3, 8, 5]);
}

#[test]
fn bytes_with_their_length_before_them() {
    let mut d = [0x03u8, 0xa, 0xb, 0xc, 0x40, 0x01, 0xd, 0x02, 0xe];
    let mut b = Octets::with_slice(&mut d);
    assert_eq!(b.get_bytes_with_varint_length().unwrap().to_vec(), vec![0xa, 0xb, 0xc]);
    assert_eq!(b.get_bytes_with_varint_length().unwrap().to_vec(), vec![0xd]);
    assert_eq!(b.off(), 7);
    assert!(b.get_bytes_with_varint_length().is_err());
    assert_eq!(b.off(), 8);
}

#[test]
fn parts_of_a_buffer() {
    let mut d = [1u8, 2, 3, 4, 5];
    {
        let mut b = Octets::with_slice(&mut d);
        {
            let (mut left, mut right) = b.split_at(2).unwrap();
            assert_eq!(left.as_ref(), &[1, 2]);
            assert_eq!(right.as_ref(), &[3, 4, 5]);
            left.slice(1).unwrap()[0] = 0x10;
            right.slice_last(2).unwrap()[1] = 0x50;
            assert!(right.slice(4).is_err());
            assert!(right.slice_last(4).is_err());
        }
        assert!(b.split_at(6).is_err());
    }
    assert_eq!(d, [0x10, 2, 3, 4, 0x50]);
}
