use dns_codec::buffer::PacketBuffer;
use dns_codec::errors::Error;

#[test]
fn read_u8_empty_fails() {
    let mut b = PacketBuffer::new(Vec::new());
    assert_eq!(b.read_u8(), Err(Error::OutOfBounds));
    assert_eq!(b.pos(), 0);
}

#[test]
fn read_u16_short_fails() {
    let mut b = PacketBuffer::new(vec![0x12]);
    assert_eq!(b.read_u16(), Err(Error::OutOfBounds));
    assert_eq!(b.pos(), 0);
}

#[test]
fn read_u32_short_fails() {
    let mut b = PacketBuffer::new(vec![0x12, 0x34, 0x56]);
    assert_eq!(b.read_u32(), Err(Error::OutOfBounds));
    assert_eq!(b.pos(), 0);
}

#[test]
fn step_bounds() {
    let mut b = PacketBuffer::new(vec![0; 4]);
    assert_eq!(b.step(5), Err(Error::OutOfBounds));
    assert_eq!(b.pos(), 0);
    assert_eq!(b.step(4), Ok(()));
    assert_eq!(b.pos(), 4);
    assert_eq!(b.step(1), Err(Error::OutOfBounds));
}

#[test]
fn write_past_capacity_fails() {
    let mut b = PacketBuffer::new(vec![0xaa]);
    assert_eq!(b.write_u16(0x0102), Err(Error::OutOfBounds));
    assert_eq!(b.pos(), 0);
    assert_eq!(b.data().as_slice(), &[0xaa]);
}

#[test]
fn primitives_round_trip() {
    let mut b = PacketBuffer::new(vec![0; 7]);
    assert_eq!(b.write_u8(0xab), Ok(()));
    assert_eq!(b.write_u16(0x0102), Ok(()));
    assert_eq!(b.write_u32(0xdeadbeef), Ok(()));
    assert_eq!(b.pos(), 7);
    assert_eq!(b.data().as_slice(), &[0xab, 0x01, 0x02, 0xde, 0xad, 0xbe, 0xef]);

    let mut r = PacketBuffer::new(b.data().clone());
    assert_eq!(r.read_u8(), Ok(0xab));
    assert_eq!(r.read_u16(), Ok(0x0102));
    assert_eq!(r.read_u32(), Ok(0xdeadbeef));
    assert_eq!(r.pos(), 7);
}

#[test]
fn qname_write_then_read() {
    let mut b = PacketBuffer::new(vec![0; 16]);
    assert_eq!(b.write_qname(&b"example.com".to_vec()), Ok(()));
    assert_eq!(b.pos(), 13);
    assert_eq!(
        &b.data()[0..13],
        &[7, b'e', b'x', b'a', b'm', b'p', b'l', b'e', 3, b'c', b'o', b'm', 0]
    );

    let mut r = PacketBuffer::new(b.data().clone());
    assert_eq!(r.read_qname(), Ok(b"example.com".to_vec()));
    assert_eq!(r.pos(), 13);
}

#[test]
fn qname_write_too_small_fails() {
    let mut b = PacketBuffer::new(vec![0; 12]);
    assert_eq!(b.write_qname(&b"example.com".to_vec()), Err(Error::OutOfBounds));
    assert_eq!(b.pos(), 0);
}

#[test]
fn qname_single_label() {
    let mut b = PacketBuffer::new(vec![0; 8]);
    assert_eq!(b.write_qname(&b"abc".to_vec()), Ok(()));
    assert_eq!(&b.data()[0..5], &[3, b'a', b'b', b'c', 0]);
    let mut r = PacketBuffer::new(b.data().clone());
    assert_eq!(r.read_qname(), Ok(b"abc".to_vec()));
    assert_eq!(r.pos(), 5);
}

#[test]
fn qname_root_name_decodes_empty() {
    let mut r = PacketBuffer::new(vec![0, 0xff]);
    assert_eq!(r.read_qname(), Ok(Vec::new()));
    assert_eq!(r.pos(), 1);
}

#[test]
fn qname_compression_pointer_followed() {
    // "example.com" at offset 0, then "www" + pointer to offset 0.
    let mut bytes = vec![7, b'e', b'x', b'a', b'm', b'p', b'l', b'e', 3, b'c', b'o', b'm', 0];
    bytes.extend_from_slice(&[3, b'w', b'w', b'w', 0xc0, 0x00]);
    let mut r = PacketBuffer::new(bytes);
    assert_eq!(r.step(13), Ok(()));
    assert_eq!(r.read_qname(), Ok(b"www.example.com".to_vec()));
    // the cursor moves just past the pointer bytes, not to the target
    assert_eq!(r.pos(), 19);
}

#[test]
fn qname_self_pointer_fails() {
    let mut r = PacketBuffer::new(vec![0xc0, 0x00]);
    assert_eq!(r.read_qname(), Err(Error::MalformedName));
    assert_eq!(r.pos(), 0);
}

#[test]
fn qname_pointer_cycle_fails() {
    // two pointers aiming at each other
    let mut r = PacketBuffer::new(vec![0xc0, 0x02, 0xc0, 0x00]);
    assert_eq!(r.read_qname(), Err(Error::MalformedName));
    assert_eq!(r.pos(), 0);
}

#[test]
fn qname_pointer_out_of_range_fails() {
    let mut r = PacketBuffer::new(vec![0xc0, 0x7f]);
    assert_eq!(r.read_qname(), Err(Error::MalformedName));
}

#[test]
fn qname_truncated_pointer_fails() {
    let mut r = PacketBuffer::new(vec![0xc0]);
    assert_eq!(r.read_qname(), Err(Error::OutOfBounds));
}

#[test]
fn qname_invalid_length_byte_fails() {
    // 0x40 has only one of the two pointer bits set: neither an
    // ordinary length nor a pointer
    let mut r = PacketBuffer::new(vec![0x40, 0x00, 0x00]);
    assert_eq!(r.read_qname(), Err(Error::MalformedName));
}

#[test]
fn qname_truncated_label_fails() {
    let mut r = PacketBuffer::new(vec![3, b'a', b'b']);
    assert_eq!(r.read_qname(), Err(Error::OutOfBounds));
}
