use dns_codec::buffer::PacketBuffer;
use dns_codec::errors::{Error, ResultCode};
use dns_codec::header::Header;

#[test]
fn header_decode_example() {
    let bytes = vec![0x00, 0x01, 0x81, 0x80, 0x00, 0x01, 0x00, 0x01, 0x00, 0x00, 0x00, 0x00];
    let mut b = PacketBuffer::new(bytes);
    let h = Header::read(&mut b).unwrap();
    assert_eq!(h.id, 1);
    assert!(h.is_response);
    assert_eq!(h.op_code, 0);
    assert!(!h.is_authoritative);
    assert!(!h.is_truncated);
    assert!(h.recursion_desired);
    assert!(h.recursion_available);
    assert_eq!(h.z, 0);
    assert_eq!(h.response_code, ResultCode::NoError);
    assert_eq!(h.question_count, 1);
    assert_eq!(h.answer_count, 1);
    assert_eq!(h.authority_count, 0);
    assert_eq!(h.additional_count, 0);
    assert_eq!(b.pos(), 12);
}

#[test]
fn header_encode_example() {
    let h = Header {
        id: 1,
        is_response: true,
        op_code: 0,
        is_authoritative: false,
        is_truncated: false,
        recursion_desired: true,
        recursion_available: true,
        z: 0,
        response_code: ResultCode::NoError,
        question_count: 1,
        answer_count: 1,
        authority_count: 0,
        additional_count: 0,
    };
    let mut b = PacketBuffer::new(vec![0; 12]);
    assert_eq!(h.write(&mut b), Ok(()));
    assert_eq!(b.pos(), 12);
    assert_eq!(
        b.data().as_slice(),
        &[0x00, 0x01, 0x81, 0x80, 0x00, 0x01, 0x00, 0x01, 0x00, 0x00, 0x00, 0x00]
    );
}

#[test]
fn header_round_trip_all_fields() {
    let h = Header {
        id: 0xbeef,
        is_response: true,
        op_code: 15,
        is_authoritative: true,
        is_truncated: true,
        recursion_desired: true,
        recursion_available: true,
        z: 7,
        response_code: ResultCode::Other(9),
        question_count: 0x1234,
        answer_count: 0xffff,
        authority_count: 7,
        additional_count: 0x8000,
    };
    let mut b = PacketBuffer::new(vec![0; 12]);
    assert_eq!(h.write(&mut b), Ok(()));
    let mut r = PacketBuffer::new(b.data().clone());
    assert_eq!(Header::read(&mut r), Ok(h));
}

#[test]
fn header_round_trip_query() {
    let h = Header {
        id: 42,
        is_response: false,
        op_code: 2,
        is_authoritative: false,
        is_truncated: false,
        recursion_desired: false,
        recursion_available: false,
        z: 3,
        response_code: ResultCode::Refused,
        question_count: 0,
        answer_count: 0,
        authority_count: 0,
        additional_count: 0,
    };
    let mut b = PacketBuffer::new(vec![0; 16]);
    assert_eq!(h.write(&mut b), Ok(()));
    let mut r = PacketBuffer::new(b.data().clone());
    assert_eq!(Header::read(&mut r), Ok(h));
}

#[test]
fn header_decode_nonzero_position_fails() {
    let mut b = PacketBuffer::new(vec![0; 13]);
    b.step(1).unwrap();
    assert_eq!(Header::read(&mut b), Err(Error::InvalidPosition));
    assert_eq!(b.pos(), 1);
}

#[test]
fn header_decode_short_buffer_fails() {
    let mut b = PacketBuffer::new(vec![0; 11]);
    assert_eq!(Header::read(&mut b), Err(Error::OutOfBounds));
}

#[test]
fn header_encode_short_buffer_fails() {
    let h = Header {
        id: 0,
        is_response: false,
        op_code: 0,
        is_authoritative: false,
        is_truncated: false,
        recursion_desired: false,
        recursion_available: false,
        z: 0,
        response_code: ResultCode::NoError,
        question_count: 0,
        answer_count: 0,
        authority_count: 0,
        additional_count: 0,
    };
    let mut b = PacketBuffer::new(vec![0; 11]);
    assert_eq!(h.write(&mut b), Err(Error::OutOfBounds));
    assert_eq!(b.pos(), 0);
}

#[test]
fn result_code_mapping() {
    assert_eq!(ResultCode::from_num(0), ResultCode::NoError);
    assert_eq!(ResultCode::from_num(1), ResultCode::FormatError);
    assert_eq!(ResultCode::from_num(2), ResultCode::ServerFailure);
    assert_eq!(ResultCode::from_num(3), ResultCode::NxDomain);
    assert_eq!(ResultCode::from_num(4), ResultCode::NotImplemented);
    assert_eq!(ResultCode::from_num(5), ResultCode::Refused);
    assert_eq!(ResultCode::from_num(9), ResultCode::Other(9));
    assert_eq!(ResultCode::NxDomain.to_num(), 3);
    assert_eq!(ResultCode::Other(12).to_num(), 12);
}
