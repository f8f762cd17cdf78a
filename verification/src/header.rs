//! The 12-byte fixed DNS header and its codec.

use vstd::prelude::*;

use crate::buffer::PacketBuffer;
use crate::errors::{Error, ResultCode};
use crate::wire::{be16, u16_of, written};

verus! {

/// The fixed header that starts every DNS message.
///
/// The four counts are declarative: they state how many entries of each
/// section follow, but are not validated against the bytes actually
/// present — the caller uses them to drive section parsing.
#[derive(Clone, Copy, Debug, PartialEq, Eq, Structural)]
pub struct Header {
    /// A random identifier assigned to query packets; responses must
    /// reply with the same id.
    pub id: u16,
    /// 1 bit: 0 for queries, 1 for responses.
    pub is_response: bool,
    /// 4 bits; typically 0, stored but not interpreted here.
    pub op_code: u8,
    /// 1 bit: the responding server owns the domain queried.
    pub is_authoritative: bool,
    /// 1 bit: the message was cut at 512 bytes and may be reissued over
    /// TCP.
    pub is_truncated: bool,
    /// 1 bit: the sender asks the server to resolve recursively.
    pub recursion_desired: bool,
    /// 1 bit: the server allows recursive queries.
    pub recursion_available: bool,
    /// 3 bits, originally reserved; stored but not validated.
    pub z: u8,
    /// 4 bits: the status of the response.
    pub response_code: ResultCode,
    /// Number of entries in the question section.
    pub question_count: u16,
    /// Number of entries in the answer section.
    pub answer_count: u16,
    /// Number of entries in the authority section.
    pub authority_count: u16,
    /// Number of entries in the additional section.
    pub additional_count: u16,
}

/// 1 if the flag is set, 0 if not.
pub open spec fn flag_bit(b: bool) -> u8 {
    if b {
        1
    } else {
        0
    }
}

impl Header {
    /// A header whose bit fields fit their widths: the opcode in 4 bits,
    /// the reserved field in 3, and the response code in 4.
    pub open spec fn wf(self) -> bool {
        &&& self.op_code <= 15
        &&& self.z <= 7
        &&& self.response_code.wf()
    }

    /// The first status byte: response flag, opcode, authoritative,
    /// truncated and recursion-desired flags.
    pub open spec fn flags_lo(self) -> u8 {
        (flag_bit(self.is_response) << 7) | (self.op_code << 3) | (flag_bit(self.is_authoritative)
            << 2) | (flag_bit(self.is_truncated) << 1) | flag_bit(self.recursion_desired)
    }

    /// The second status byte: recursion-available flag, reserved field
    /// and response code.
    pub open spec fn flags_hi(self) -> u8 {
        (flag_bit(self.recursion_available) << 7) | (self.z << 4) | self.response_code.spec_to_num()
    }

    /// The 12 bytes of the header on the wire: id, the two status
    /// bytes, then the four section counts, all big-endian.
    pub open spec fn wire_bytes(self) -> Seq<u8> {
        be16(self.id) + seq![self.flags_lo(), self.flags_hi()] + be16(self.question_count) + be16(
            self.answer_count,
        ) + be16(self.authority_count) + be16(self.additional_count)
    }

    /// The header that 12 header bytes stand for.
    pub open spec fn parse(b: Seq<u8>) -> Header {
        Header {
            id: u16_of(b[0], b[1]),
            is_response: b[2] & 0x80 != 0,
            op_code: (b[2] >> 3) & 0x0f,
            is_authoritative: b[2] & 0x04 != 0,
            is_truncated: b[2] & 0x02 != 0,
            recursion_desired: b[2] & 0x01 != 0,
            recursion_available: b[3] & 0x80 != 0,
            z: (b[3] >> 4) & 0x07,
            response_code: ResultCode::spec_from_num(b[3] & 0x0f),
            question_count: u16_of(b[4], b[5]),
            answer_count: u16_of(b[6], b[7]),
            authority_count: u16_of(b[8], b[9]),
            additional_count: u16_of(b[10], b[11]),
        }
    }

    /// Decodes the header from the start of the buffer.
    ///
    /// The buffer must be at position 0, or the decode fails with the
    /// invalid-position error and moves nothing; the header is the first
    /// thing in a message and its layout is position-dependent.  With
    /// fewer than 12 bytes of capacity the decode fails out of bounds.
    /// No further validation is performed: the counts are handed to the
    /// caller as declared.
    pub fn read(buffer: &mut PacketBuffer) -> (r: Result<Header, Error>)
        requires
            old(buffer).wf(),
        ensures
            final(buffer).wf(),
            final(buffer).bytes_spec() == old(buffer).bytes_spec(),
            old(buffer).pos_spec() != 0 ==> r == Err::<Header, Error>(Error::InvalidPosition)
                && *final(buffer) == *old(buffer),
            old(buffer).pos_spec() == 0 && old(buffer).cap() < 12 ==> r == Err::<Header, Error>(
                Error::OutOfBounds,
            ),
            old(buffer).pos_spec() == 0 && old(buffer).cap() >= 12 ==> (r matches Ok(h) && h
                == Header::parse(old(buffer).bytes_spec()) && h.wf() && final(buffer).pos_spec()
                == 12),
    {
        if buffer.pos() != 0 {
            return Err(Error::InvalidPosition);
        }
        let id = buffer.read_u16()?;

        let byte = buffer.read_u8()?;
        let is_response = byte & 0x80 != 0;
        let op_code = (byte >> 3) & 0x0f;
        let is_authoritative = byte & 0x04 != 0;
        let is_truncated = byte & 0x02 != 0;
        let recursion_desired = byte & 0x01 != 0;

        let byte = buffer.read_u8()?;
        let recursion_available = byte & 0x80 != 0;
        let z = (byte >> 4) & 0x07;
        let response_code = ResultCode::from_num(byte & 0x0f);

        let question_count = buffer.read_u16()?;
        let answer_count = buffer.read_u16()?;
        let authority_count = buffer.read_u16()?;
        let additional_count = buffer.read_u16()?;

        proof {
            let b2 = old(buffer).bytes_spec()[2];
            let b3 = old(buffer).bytes_spec()[3];
            assert((b2 >> 3) & 0x0f <= 15) by (bit_vector);
            assert((b3 >> 4) & 0x07 <= 7) by (bit_vector);
            assert(b3 & 0x0f <= 15) by (bit_vector);
        }
        Ok(
            Header {
                id,
                is_response,
                op_code,
                is_authoritative,
                is_truncated,
                recursion_desired,
                recursion_available,
                z,
                response_code,
                question_count,
                answer_count,
                authority_count,
                additional_count,
            },
        )
    }

    /// Encodes the header as its 12 wire bytes at the buffer's cursor;
    /// fails out of bounds, changing nothing, if they do not fit.
    pub fn write(&self, buffer: &mut PacketBuffer) -> (r: Result<(), Error>)
        requires
            old(buffer).wf(),
            self.wf(),
        ensures
            final(buffer).wf(),
            old(buffer).remaining() >= 12 ==> r is Ok && final(buffer).bytes_spec() == written(
                old(buffer).bytes_spec(),
                old(buffer).pos_spec(),
                self.wire_bytes(),
            ) && final(buffer).pos_spec() == old(buffer).pos_spec() + 12,
            old(buffer).remaining() < 12 ==> r == Err::<(), Error>(Error::OutOfBounds)
                && *final(buffer) == *old(buffer),
    {
        if buffer.remaining_bytes() < 12 {
            return Err(Error::OutOfBounds);
        }
        let ghost b0 = old(buffer).bytes_spec();
        let ghost p0 = old(buffer).pos_spec();

        let r_bit: u8 = if self.is_response {
            1
        } else {
            0
        };
        let a_bit: u8 = if self.is_authoritative {
            1
        } else {
            0
        };
        let t_bit: u8 = if self.is_truncated {
            1
        } else {
            0
        };
        let d_bit: u8 = if self.recursion_desired {
            1
        } else {
            0
        };
        let v_bit: u8 = if self.recursion_available {
            1
        } else {
            0
        };
        let flags_lo: u8 = (r_bit << 7) | (self.op_code << 3) | (a_bit << 2) | (t_bit << 1)
            | d_bit;
        let flags_hi: u8 = (v_bit << 7) | (self.z << 4) | self.response_code.to_num();

        let _ = buffer.write_u16(self.id);
        proof {
            crate::wire::lemma_written_app(b0, p0, be16(self.id), seq![self.flags_lo()]);
        }
        let _ = buffer.write_u8(flags_lo);
        proof {
            crate::wire::lemma_written_app(
                b0,
                p0,
                be16(self.id) + seq![self.flags_lo()],
                seq![self.flags_hi()],
            );
        }
        let _ = buffer.write_u8(flags_hi);
        let ghost w2 = be16(self.id) + seq![self.flags_lo()] + seq![self.flags_hi()];
        proof {
            crate::wire::lemma_written_app(
                b0,
                p0,
                be16(self.id) + seq![self.flags_lo()] + seq![self.flags_hi()],
                be16(self.question_count),
            );
        }
        let _ = buffer.write_u16(self.question_count);
        proof {
            crate::wire::lemma_written_app(
                b0,
                p0,
                w2 + be16(self.question_count),
                be16(self.answer_count),
            );
        }
        let _ = buffer.write_u16(self.answer_count);
        proof {
            crate::wire::lemma_written_app(
                b0,
                p0,
                w2 + be16(self.question_count) + be16(self.answer_count),
                be16(self.authority_count),
            );
        }
        let _ = buffer.write_u16(self.authority_count);
        proof {
            crate::wire::lemma_written_app(
                b0,
                p0,
                w2 + be16(self.question_count) + be16(self.answer_count) + be16(
                    self.authority_count,
                ),
                be16(self.additional_count),
            );
        }
        let _ = buffer.write_u16(self.additional_count);
        proof {
            assert(w2 + be16(self.question_count) + be16(self.answer_count) + be16(
                self.authority_count,
            ) + be16(self.additional_count) =~= self.wire_bytes());
        }
        Ok(())
    }
}

/// Round trip: decoding the wire bytes of any well-formed header
/// reproduces every field of the header exactly.
pub proof fn lemma_header_round_trip(h: Header)
    requires
        h.wf(),
    ensures
        Header::parse(h.wire_bytes()) == h,
{
    let b = h.wire_bytes();
    crate::wire::lemma_u16_round_trip(h.id);
    crate::wire::lemma_u16_round_trip(h.question_count);
    crate::wire::lemma_u16_round_trip(h.answer_count);
    crate::wire::lemma_u16_round_trip(h.authority_count);
    crate::wire::lemma_u16_round_trip(h.additional_count);
    assert(b[0] == (h.id >> 8) as u8 && b[1] == (h.id & 0xff) as u8);
    assert(b[2] == h.flags_lo() && b[3] == h.flags_hi());
    assert(b[4] == (h.question_count >> 8) as u8 && b[5] == (h.question_count & 0xff) as u8);
    assert(b[6] == (h.answer_count >> 8) as u8 && b[7] == (h.answer_count & 0xff) as u8);
    assert(b[8] == (h.authority_count >> 8) as u8 && b[9] == (h.authority_count & 0xff) as u8);
    assert(b[10] == (h.additional_count >> 8) as u8 && b[11] == (h.additional_count & 0xff)
        as u8);

    let r = flag_bit(h.is_response);
    let op = h.op_code;
    let a = flag_bit(h.is_authoritative);
    let t = flag_bit(h.is_truncated);
    let d = flag_bit(h.recursion_desired);
    let lo = h.flags_lo();
    assert(lo == (r << 7) | (op << 3) | (a << 2) | (t << 1) | d);
    assert({
        let x = (r << 7) | (op << 3) | (a << 2) | (t << 1) | d;
        (x & 0x80 != 0) == (r == 1) && ((x >> 3) & 0x0f) == op && (x & 0x04 != 0) == (a == 1) && (
        x & 0x02 != 0) == (t == 1) && (x & 0x01 != 0) == (d == 1)
    }) by (bit_vector)
        requires
            r <= 1,
            op <= 15,
            a <= 1,
            t <= 1,
            d <= 1,
    ;

    let v = flag_bit(h.recursion_available);
    let z = h.z;
    let rc = h.response_code.spec_to_num();
    let hi = h.flags_hi();
    assert(hi == (v << 7) | (z << 4) | rc);
    assert({
        let x = (v << 7) | (z << 4) | rc;
        (x & 0x80 != 0) == (v == 1) && ((x >> 4) & 0x07) == z && (x & 0x0f) == rc
    }) by (bit_vector)
        requires
            v <= 1,
            z <= 7,
            rc <= 15,
    ;
    crate::errors::lemma_result_code_round_trip(h.response_code, 0);
}

/// Round trip through a buffer: encoding a well-formed header at the
/// start of any large-enough buffer and then decoding that buffer
/// reproduces every field of the header exactly.
pub proof fn lemma_header_write_read(b: Seq<u8>, h: Header)
    requires
        h.wf(),
        12 <= b.len(),
    ensures
        Header::parse(written(b, 0, h.wire_bytes())) == h,
{
    let w = written(b, 0, h.wire_bytes());
    crate::wire::lemma_written_parts(b, 0, h.wire_bytes());
    assert forall|k: int| 0 <= k < 12 implies w[k] == h.wire_bytes()[k] by {
        assert(w.subrange(0, 12)[k] == w[k]);
    }
    assert(w[0] == h.wire_bytes()[0] && w[1] == h.wire_bytes()[1] && w[2] == h.wire_bytes()[2]
        && w[3] == h.wire_bytes()[3] && w[4] == h.wire_bytes()[4] && w[5] == h.wire_bytes()[5]
        && w[6] == h.wire_bytes()[6] && w[7] == h.wire_bytes()[7] && w[8] == h.wire_bytes()[8]
        && w[9] == h.wire_bytes()[9] && w[10] == h.wire_bytes()[10] && w[11] == h.wire_bytes()[
        11
    ]);
    lemma_header_round_trip(h);
}

} // verus!
