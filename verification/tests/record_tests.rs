use dns_codec::buffer::PacketBuffer;
use dns_codec::errors::Error;
use dns_codec::record::{Ipv4Addr, Record, RecordPreamble, RecordType};

fn example_a_wire_bytes() -> Vec<u8> {
    let mut bytes = vec![7, b'e', b'x', b'a', b'm', b'p', b'l', b'e', 3, b'c', b'o', b'm', 0];
    bytes.extend_from_slice(&[0x00, 0x01]); // type A
    bytes.extend_from_slice(&[0x00, 0x01]); // class 1
    bytes.extend_from_slice(&[0x00, 0x00, 0x01, 0x2c]); // ttl 300
    bytes.extend_from_slice(&[0x00, 0x04]); // payload length 4
    bytes.extend_from_slice(&[0x5d, 0xb8, 0xd8, 0x22]); // 93.184.216.34
    bytes
}

#[test]
fn record_a_encode_example() {
    let record = Record::A {
        preamble: RecordPreamble {
            name: b"example.com".to_vec(),
            record_type: RecordType::A,
            class: 7,   // normalized to 1 on the wire
            ttl: 300,
            len: 9,     // normalized to 4 on the wire
        },
        addr: Ipv4Addr::new(93, 184, 216, 34),
    };
    let mut b = PacketBuffer::new(vec![0; 27]);
    assert_eq!(record.write(&mut b), Ok(()));
    assert_eq!(b.pos(), 27);
    assert_eq!(b.data().as_slice(), example_a_wire_bytes().as_slice());
}

#[test]
fn record_a_decode_example() {
    let mut b = PacketBuffer::new(example_a_wire_bytes());
    let record = Record::read(&mut b).unwrap();
    assert_eq!(b.pos(), 27);
    match record {
        Record::A { preamble, addr } => {
            assert_eq!(preamble.name, b"example.com".to_vec());
            assert_eq!(preamble.record_type, RecordType::A);
            assert_eq!(preamble.class, 1);
            assert_eq!(preamble.ttl, 300);
            assert_eq!(preamble.len, 4);
            assert_eq!(addr, Ipv4Addr::new(93, 184, 216, 34));
        }
        Record::Unknown { .. } => panic!("expected an address record"),
    }
}

#[test]
fn record_a_round_trip_example() {
    let record = Record::A {
        preamble: RecordPreamble {
            name: b"example.com".to_vec(),
            record_type: RecordType::A,
            class: 0xffff,
            ttl: 300,
            len: 0,
        },
        addr: Ipv4Addr::new(93, 184, 216, 34),
    };
    let mut b = PacketBuffer::new(vec![0; 64]);
    assert_eq!(record.write(&mut b), Ok(()));
    let written = b.pos();
    let mut r = PacketBuffer::new(b.data().clone());
    let decoded = Record::read(&mut r).unwrap();
    assert_eq!(r.pos(), written);
    // name, TTL and address come back exactly; class and length are
    // normalized to 1 and 4
    assert_eq!(
        decoded,
        Record::A {
            preamble: RecordPreamble {
                name: b"example.com".to_vec(),
                record_type: RecordType::A,
                class: 1,
                ttl: 300,
                len: 4,
            },
            addr: Ipv4Addr::new(93, 184, 216, 34),
        }
    );
}

#[test]
fn record_unknown_skips_payload() {
    let mut bytes = vec![3, b'f', b'o', b'o', 0];
    bytes.extend_from_slice(&[0x00, 0x05]); // type 5, not understood
    bytes.extend_from_slice(&[0x00, 0x01]); // class
    bytes.extend_from_slice(&[0x00, 0x00, 0x00, 0x3c]); // ttl 60
    bytes.extend_from_slice(&[0x00, 0x03]); // payload length 3
    bytes.extend_from_slice(&[0xaa, 0xbb, 0xcc]); // payload, skipped
    bytes.extend_from_slice(&[0xff, 0xff]); // bytes of the next entry
    let mut b = PacketBuffer::new(bytes);
    let record = Record::read(&mut b).unwrap();
    // the cursor lands exactly preamble.len bytes past the preamble
    assert_eq!(b.pos(), 5 + 10 + 3);
    match record {
        Record::Unknown { preamble } => {
            assert_eq!(preamble.name, b"foo".to_vec());
            assert_eq!(preamble.record_type, RecordType::Unknown(5));
            assert_eq!(preamble.class, 1);
            assert_eq!(preamble.ttl, 60);
            assert_eq!(preamble.len, 3);
        }
        Record::A { .. } => panic!("expected an unknown record"),
    }
}

#[test]
fn record_unknown_payload_content_does_not_matter() {
    let mut first = vec![3, b'f', b'o', b'o', 0, 0x00, 0x09, 0x00, 0x01, 0, 0, 0, 0, 0x00, 0x02];
    let mut second = first.clone();
    first.extend_from_slice(&[0x11, 0x22]);
    second.extend_from_slice(&[0xee, 0xff]);
    let mut a = PacketBuffer::new(first);
    let mut b = PacketBuffer::new(second);
    assert_eq!(Record::read(&mut a).unwrap(), Record::read(&mut b).unwrap());
    assert_eq!(a.pos(), b.pos());
    assert_eq!(a.pos(), 17);
}

#[test]
fn record_unknown_declared_length_past_end_fails() {
    let mut bytes = vec![3, b'f', b'o', b'o', 0];
    bytes.extend_from_slice(&[0x00, 0x05, 0x00, 0x01, 0, 0, 0, 0]);
    bytes.extend_from_slice(&[0x00, 0x05]); // declares 5 payload bytes
    bytes.extend_from_slice(&[0xaa, 0xbb]); // only 2 remain
    let mut b = PacketBuffer::new(bytes);
    assert_eq!(Record::read(&mut b), Err(Error::OutOfBounds));
}

#[test]
fn record_a_truncated_address_fails() {
    let mut bytes = vec![3, b'f', b'o', b'o', 0];
    bytes.extend_from_slice(&[0x00, 0x01, 0x00, 0x01, 0, 0, 0, 0, 0x00, 0x04]);
    bytes.extend_from_slice(&[10, 0]); // only 2 of the 4 octets
    let mut b = PacketBuffer::new(bytes);
    assert_eq!(Record::read(&mut b), Err(Error::OutOfBounds));
}

#[test]
fn record_decode_name_pointer_loop_fails() {
    let mut b = PacketBuffer::new(vec![0xc0, 0x00, 0x00, 0x01]);
    assert_eq!(Record::read(&mut b), Err(Error::MalformedName));
}

#[test]
fn record_unknown_write_is_noop() {
    let record = Record::Unknown {
        preamble: RecordPreamble {
            name: b"foo".to_vec(),
            record_type: RecordType::Unknown(16),
            class: 1,
            ttl: 5,
            len: 11,
        },
    };
    let mut b = PacketBuffer::new(vec![0x55; 8]);
    assert_eq!(record.write(&mut b), Ok(()));
    assert_eq!(b.pos(), 0);
    assert_eq!(b.data().as_slice(), &[0x55; 8]);
}

#[test]
fn record_a_write_too_small_fails() {
    let record = Record::A {
        preamble: RecordPreamble {
            name: b"example.com".to_vec(),
            record_type: RecordType::A,
            class: 1,
            ttl: 300,
            len: 4,
        },
        addr: Ipv4Addr::new(93, 184, 216, 34),
    };
    let mut b = PacketBuffer::new(vec![0; 20]);
    assert_eq!(record.write(&mut b), Err(Error::OutOfBounds));
}

#[test]
fn record_type_conversions() {
    assert_eq!(RecordType::from_num(1), RecordType::A);
    assert_eq!(RecordType::from_num(28), RecordType::Unknown(28));
    assert_eq!(RecordType::A.to_num(), 1);
    assert_eq!(RecordType::Unknown(28).to_num(), 28);
    // round trips
    assert_eq!(RecordType::from_num(RecordType::A.to_num()), RecordType::A);
    assert_eq!(RecordType::from_num(RecordType::Unknown(255).to_num()), RecordType::Unknown(255));
}

#[test]
fn record_decode_with_compressed_name() {
    // a name at offset 0, then a full record whose name is a pointer
    let mut bytes = vec![3, b'f', b'o', b'o', 0];
    bytes.extend_from_slice(&[0xc0, 0x00]); // name: pointer to offset 0
    bytes.extend_from_slice(&[0x00, 0x01, 0x00, 0x01, 0, 0, 0, 9, 0x00, 0x04]);
    bytes.extend_from_slice(&[1, 2, 3, 4]);
    let mut b = PacketBuffer::new(bytes);
    b.step(5).unwrap();
    let record = Record::read(&mut b).unwrap();
    assert_eq!(b.pos(), 5 + 2 + 10 + 4);
    match record {
        Record::A { preamble, addr } => {
            assert_eq!(preamble.name, b"foo".to_vec());
            assert_eq!(preamble.ttl, 9);
            assert_eq!(addr, Ipv4Addr::new(1, 2, 3, 4));
        }
        Record::Unknown { .. } => panic!("expected an address record"),
    }
}
