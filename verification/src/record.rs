//! Resource records: the shared preamble, the open record-type tag, and
//! the per-type payloads.

use vstd::prelude::*;

use crate::buffer::PacketBuffer;
use crate::errors::Error;
use crate::wire::{
    be16, be32, join_labels, qname_encoding, qname_parse, u16_of, u32_of, valid_name, written,
    MAX_JUMPS,
};

verus! {

/// An open, extensible record-type tag: the address kind is well known,
/// and any unrecognized 16-bit type code is preserved numerically.
#[derive(Clone, Copy, Debug, PartialEq, Eq, Structural)]
pub enum RecordType {
    /// Any type code this codec does not understand, kept verbatim.
    Unknown(u16),
    /// An IPv4 address record (type code 1).
    A,
}

impl RecordType {
    /// The record type a 16-bit wire code stands for.
    pub open spec fn spec_from_num(value: u16) -> RecordType {
        if value == 1 {
            RecordType::A
        } else {
            RecordType::Unknown(value)
        }
    }

    /// The wire code of a record type.
    pub open spec fn spec_to_num(self) -> u16 {
        match self {
            RecordType::A => 1,
            RecordType::Unknown(x) => x,
        }
    }

    /// Maps a 16-bit wire code to its record type.
    pub fn from_num(value: u16) -> (r: RecordType)
        ensures
            r == RecordType::spec_from_num(value),
    {
        match value {
            1 => RecordType::A,
            _ => RecordType::Unknown(value),
        }
    }

    /// Maps a record type back to its wire code.
    pub fn to_num(self) -> (r: u16)
        ensures
            r == self.spec_to_num(),
    {
        match self {
            RecordType::A => 1,
            RecordType::Unknown(x) => x,
        }
    }
}

/// Round trip: a known kind survives conversion to its numeric code and
/// back, and a code that maps to the catch-all survives conversion to
/// the catch-all and back.
pub proof fn lemma_record_type_round_trip(code: u16)
    ensures
        RecordType::spec_from_num(RecordType::A.spec_to_num()) == RecordType::A,
        RecordType::spec_from_num(code) is Unknown ==> RecordType::spec_from_num(
            code,
        ).spec_to_num() == code,
{
}

/// A 4-octet IPv4 address.
#[derive(Clone, Copy, Debug, PartialEq, Eq, Structural)]
pub struct Ipv4Addr {
    /// First (most significant) octet.
    pub o0: u8,
    /// Second octet.
    pub o1: u8,
    /// Third octet.
    pub o2: u8,
    /// Fourth octet.
    pub o3: u8,
}

impl Ipv4Addr {
    /// The address with the given octets, most significant first.
    pub fn new(o0: u8, o1: u8, o2: u8, o3: u8) -> (r: Ipv4Addr)
        ensures
            r == (Ipv4Addr { o0, o1, o2, o3 }),
    {
        Ipv4Addr { o0, o1, o2, o3 }
    }
}

/// The fields every resource record starts with, whatever its kind:
/// the domain name, the type code, the class (conventionally 1, stored
/// verbatim), the time-to-live in seconds, and the declared payload
/// length in bytes.
#[derive(Clone, Debug, PartialEq, Eq)]
pub struct RecordPreamble {
    /// The domain name, its labels joined with separators.
    pub name: Vec<u8>,
    /// The record type.
    pub record_type: RecordType,
    /// The class, stored verbatim.
    pub class: u16,
    /// Time-to-live, in seconds.
    pub ttl: u32,
    /// The declared payload length, in bytes.
    pub len: u16,
}

/// A resource record: the address kind carries its 4-octet address, and
/// every other kind is carried as `Unknown`, holding only the preamble
/// (its payload is skipped when decoding, not retained).
#[derive(Clone, Debug, PartialEq, Eq)]
pub enum Record {
    /// A record of a kind this codec does not understand.
    Unknown {
        /// The record's preamble; its payload was skipped.
        preamble: RecordPreamble,
    },
    /// An IPv4 address record.
    A {
        /// The record's preamble.
        preamble: RecordPreamble,
        /// The address carried in the 4-byte payload.
        addr: Ipv4Addr,
    },
}

/// What a record says, with its name abstracted to a byte sequence:
/// the preamble fields, and the address for the address kind.
pub struct RecordModel {
    /// The domain name, labels joined with separators.
    pub name: Seq<u8>,
    /// The record type.
    pub rtype: RecordType,
    /// The class, verbatim.
    pub class: u16,
    /// Time-to-live, in seconds.
    pub ttl: u32,
    /// The declared payload length.
    pub rdlen: u16,
    /// The address, for the address kind only.
    pub addr: Option<Ipv4Addr>,
}

/// Decoding a record preamble: a name, then type, class, TTL and
/// payload length.  Returns the preamble (with no address yet) and the
/// position just past it.
pub open spec fn preamble_parse(b: Seq<u8>, pos: int) -> Result<(RecordModel, int), Error> {
    match qname_parse(b, pos, MAX_JUMPS as nat) {
        Err(e) => Err(e),
        Ok((labels, p)) => if p + 10 > b.len() {
            Err(Error::OutOfBounds)
        } else {
            Ok(
                (
                    RecordModel {
                        name: join_labels(labels),
                        rtype: RecordType::spec_from_num(u16_of(b[p], b[p + 1])),
                        class: u16_of(b[p + 2], b[p + 3]),
                        ttl: u32_of(b[p + 4], b[p + 5], b[p + 6], b[p + 7]),
                        rdlen: u16_of(b[p + 8], b[p + 9]),
                        addr: None,
                    },
                    p + 10,
                ),
            )
        },
    }
}

/// Decoding a whole record: the preamble, then the payload as the type
/// directs.  The address kind reads its 4 octets (the declared length
/// is trusted, not cross-checked against 4); any other kind skips
/// exactly the declared payload length, whatever the payload holds.
pub open spec fn record_parse(b: Seq<u8>, pos: int) -> Result<(RecordModel, int), Error> {
    match preamble_parse(b, pos) {
        Err(e) => Err(e),
        Ok((m, q)) => if m.rtype == RecordType::A {
            if q + 4 > b.len() {
                Err(Error::OutOfBounds)
            } else {
                Ok(
                    (
                        RecordModel {
                            addr: Some(
                                Ipv4Addr { o0: b[q], o1: b[q + 1], o2: b[q + 2], o3: b[q + 3] },
                            ),
                            ..m
                        },
                        q + 4,
                    ),
                )
            }
        } else {
            if q + m.rdlen > b.len() {
                Err(Error::OutOfBounds)
            } else {
                Ok((m, q + m.rdlen))
            }
        },
    }
}

/// The wire bytes of an address record: the name, the address type
/// code, class 1, the TTL, payload length 4, and the four address
/// octets.
pub open spec fn record_a_encoding(name: Seq<u8>, ttl: u32, addr: Ipv4Addr) -> Seq<u8> {
    qname_encoding(name) + be16(1) + be16(1) + be32(ttl) + be16(4) + seq![
        addr.o0,
        addr.o1,
        addr.o2,
        addr.o3,
    ]
}

impl Record {
    /// This record's preamble.
    pub open spec fn preamble_spec(&self) -> RecordPreamble {
        match self {
            Record::Unknown { preamble } => *preamble,
            Record::A { preamble, .. } => *preamble,
        }
    }

    /// What this record says.
    pub open spec fn model(&self) -> RecordModel {
        RecordModel {
            name: self.preamble_spec().name@,
            rtype: self.preamble_spec().record_type,
            class: self.preamble_spec().class,
            ttl: self.preamble_spec().ttl,
            rdlen: self.preamble_spec().len,
            addr: match self {
                Record::Unknown { .. } => None,
                Record::A { addr, .. } => Some(*addr),
            },
        }
    }

    /// An address record the codec can encode: its name is
    /// wire-carriable and its tag matches its variant.
    pub open spec fn wf(&self) -> bool {
        match self {
            Record::Unknown { .. } => true,
            Record::A { preamble, .. } => valid_name(preamble.name@) && preamble.record_type
                == RecordType::A,
        }
    }

    /// Decodes one record at the buffer's cursor.
    ///
    /// Reads the preamble, then dispatches on the type: the address
    /// kind reads its four octets, any other kind steps over exactly
    /// the declared payload length without retaining it.  The first
    /// buffer error is propagated; a failed decode leaves the cursor
    /// where the failure found it.
    pub fn read(buffer: &mut PacketBuffer) -> (r: Result<Record, Error>)
        requires
            old(buffer).wf(),
        ensures
            final(buffer).wf(),
            final(buffer).bytes_spec() == old(buffer).bytes_spec(),
            record_parse(old(buffer).bytes_spec(), old(buffer).pos_spec()) matches Ok(p) ==> (r
                matches Ok(rec) && rec.model() == p.0 && final(buffer).pos_spec() == p.1),
            record_parse(old(buffer).bytes_spec(), old(buffer).pos_spec()) matches Err(e) ==> r
                == Err::<Record, Error>(e),
    {
        let name = buffer.read_qname()?;
        let record_type = RecordType::from_num(buffer.read_u16()?);
        let class = buffer.read_u16()?;
        let ttl = buffer.read_u32()?;
        let len = buffer.read_u16()?;
        let preamble = RecordPreamble { name, record_type, class, ttl, len };

        match preamble.record_type {
            RecordType::A => {
                let o0 = buffer.read_u8()?;
                let o1 = buffer.read_u8()?;
                let o2 = buffer.read_u8()?;
                let o3 = buffer.read_u8()?;
                let addr = Ipv4Addr::new(o0, o1, o2, o3);
                Ok(Record::A { preamble, addr })
            },
            _ => {
                // skip the payload this codec does not understand
                buffer.step(len as usize)?;
                Ok(Record::Unknown { preamble })
            },
        }
    }

    /// Encodes this record at the buffer's cursor.
    ///
    /// The address kind writes its name, the address type code, class
    /// 1, its TTL, length 4 and the four octets: class and length are
    /// normalized on the wire whatever the preamble held.  Any other
    /// kind is deliberately not serialized: writing it is a no-op, and
    /// callers must not expect Unknown records to round-trip.  On
    /// failure the first error is propagated and already-written bytes
    /// may remain.
    pub fn write(&self, buffer: &mut PacketBuffer) -> (r: Result<(), Error>)
        requires
            old(buffer).wf(),
            self.wf(),
        ensures
            final(buffer).wf(),
            final(buffer).bytes_spec().len() == old(buffer).bytes_spec().len(),
            self is Unknown ==> r is Ok && *final(buffer) == *old(buffer),
            self matches Record::A { preamble, addr } ==> {
                let enc = record_a_encoding(preamble.name@, preamble.ttl, *addr);
                &&& old(buffer).remaining() >= enc.len() ==> r is Ok
                    && final(buffer).bytes_spec() == written(
                    old(buffer).bytes_spec(),
                    old(buffer).pos_spec(),
                    enc,
                ) && final(buffer).pos_spec() == old(buffer).pos_spec() + enc.len()
                &&& old(buffer).remaining() < enc.len() ==> r == Err::<(), Error>(
                    Error::OutOfBounds,
                )
            },
    {
        match self {
            Record::A { preamble, addr } => {
                let ghost b0 = old(buffer).bytes_spec();
                let ghost p0 = old(buffer).pos_spec();
                let ghost qe = qname_encoding(preamble.name@);
                buffer.write_qname(&preamble.name)?;
                buffer.write_u16(RecordType::A.to_num())?;
                proof {
                    crate::wire::lemma_written_app(b0, p0, qe, be16(1));
                }
                buffer.write_u16(1)?;
                proof {
                    crate::wire::lemma_written_app(b0, p0, qe + be16(1), be16(1));
                }
                buffer.write_u32(preamble.ttl)?;
                proof {
                    crate::wire::lemma_written_app(
                        b0,
                        p0,
                        qe + be16(1) + be16(1),
                        be32(preamble.ttl),
                    );
                }
                buffer.write_u16(4)?;
                proof {
                    crate::wire::lemma_written_app(
                        b0,
                        p0,
                        qe + be16(1) + be16(1) + be32(preamble.ttl),
                        be16(4),
                    );
                }
                buffer.write_u8(addr.o0)?;
                proof {
                    crate::wire::lemma_written_app(
                        b0,
                        p0,
                        qe + be16(1) + be16(1) + be32(preamble.ttl) + be16(4),
                        seq![addr.o0],
                    );
                }
                buffer.write_u8(addr.o1)?;
                proof {
                    crate::wire::lemma_written_app(
                        b0,
                        p0,
                        qe + be16(1) + be16(1) + be32(preamble.ttl) + be16(4) + seq![addr.o0],
                        seq![addr.o1],
                    );
                }
                buffer.write_u8(addr.o2)?;
                proof {
                    crate::wire::lemma_written_app(
                        b0,
                        p0,
                        qe + be16(1) + be16(1) + be32(preamble.ttl) + be16(4) + seq![addr.o0]
                            + seq![addr.o1],
                        seq![addr.o2],
                    );
                }
                buffer.write_u8(addr.o3)?;
                proof {
                    crate::wire::lemma_written_app(
                        b0,
                        p0,
                        qe + be16(1) + be16(1) + be32(preamble.ttl) + be16(4) + seq![addr.o0]
                            + seq![addr.o1] + seq![addr.o2],
                        seq![addr.o3],
                    );
                    assert(qe + be16(1) + be16(1) + be32(preamble.ttl) + be16(4) + seq![addr.o0]
                        + seq![addr.o1] + seq![addr.o2] + seq![addr.o3] =~= record_a_encoding(
                        preamble.name@,
                        preamble.ttl,
                        *addr,
                    ));
                }
                Ok(())
            },
            Record::Unknown { .. } => Ok(()),
        }
    }
}

/// Idempotence of the Unknown-record skip: when the preamble of a
/// record of any unrecognized kind ends at `q` and its declared payload
/// fits, decoding succeeds and leaves the position exactly
/// `preamble.len` bytes past the preamble, whatever the payload bytes
/// hold.
pub proof fn lemma_unknown_skip(b: Seq<u8>, pos: int)
    requires
        preamble_parse(b, pos) matches Ok(pr) && pr.0.rtype !== RecordType::A && pr.1 + pr.0.rdlen
            <= b.len(),
    ensures
        record_parse(b, pos) matches Ok(p) && p.0 == preamble_parse(b, pos)->Ok_0.0 && p.1
            == preamble_parse(b, pos)->Ok_0.1 + preamble_parse(b, pos)->Ok_0.0.rdlen,
{
}

/// Round trip: decoding the encoding of an address record reproduces
/// its name, TTL and address exactly, with class and length normalized
/// to 1 and 4 whatever the original preamble held, and consumes exactly
/// the encoding.
pub proof fn lemma_record_a_round_trip(b: Seq<u8>, pos: int, name: Seq<u8>, ttl: u32, addr: Ipv4Addr)
    requires
        valid_name(name),
        0 <= pos,
        pos + record_a_encoding(name, ttl, addr).len() <= b.len(),
        b.subrange(pos, pos + record_a_encoding(name, ttl, addr).len() as int) == record_a_encoding(
            name,
            ttl,
            addr,
        ),
    ensures
        record_parse(b, pos) == Ok::<_, Error>(
            (
                RecordModel {
                    name: name,
                    rtype: RecordType::A,
                    class: 1,
                    ttl: ttl,
                    rdlen: 4,
                    addr: Some(addr),
                },
                pos + record_a_encoding(name, ttl, addr).len(),
            ),
        ),
{
    let enc = record_a_encoding(name, ttl, addr);
    let qe = qname_encoding(name);
    assert forall|k: int| 0 <= k < enc.len() implies b[pos + k] == enc[k] by {
        assert(b.subrange(pos, pos + enc.len() as int)[k] == b[pos + k]);
    }
    assert(b.subrange(pos, pos + qe.len() as int) =~= qe) by {
        assert forall|k: int| 0 <= k < qe.len() implies b.subrange(pos, pos + qe.len() as int)[k]
            == qe[k] by {
            assert(b[pos + k] == enc[k]);
        }
    }
    crate::wire::lemma_qname_round_trip(b, pos, name, MAX_JUMPS as nat);
    let p = pos + qe.len();
    assert forall|k: int| 0 <= k < 14 implies b[p + k] == #[trigger] enc[qe.len() + k] by {
        assert(b[pos + (qe.len() + k)] == enc[qe.len() + k]);
    }
    crate::wire::lemma_u16_round_trip(1);
    crate::wire::lemma_u16_round_trip(4);
    crate::wire::lemma_u32_round_trip(ttl);
    assert(b[p + 0] == enc[qe.len() as int + 0] && b[p + 1] == enc[qe.len() as int + 1] && b[p + 2] == enc[qe.len() as int + 2] && b[p + 3] == enc[qe.len() as int + 3] && b[p + 4] == enc[qe.len() as int + 4] && b[p + 5] == enc[qe.len() as int + 5] && b[p + 6] == enc[qe.len() as int + 6] && b[p + 7] == enc[qe.len() as int + 7] && b[p + 8] == enc[qe.len() as int + 8] && b[p + 9] == enc[qe.len() as int + 9] && b[p + 10] == enc[qe.len() as int + 10] && b[p + 11] == enc[qe.len() as int + 11] && b[p + 12] == enc[qe.len() as int + 12] && b[p + 13] == enc[qe.len() as int + 13]);
    assert(enc[qe.len() as int + 0] == be16(1)[0] && enc[qe.len() as int + 1] == be16(1)[1]);
    assert(enc[qe.len() as int + 2] == be16(1)[0] && enc[qe.len() as int + 3] == be16(1)[1]);
    assert(enc[qe.len() as int + 4] == be32(ttl)[0] && enc[qe.len() as int + 5] == be32(ttl)[1] && enc[qe.len() as int
        + 6] == be32(ttl)[2] && enc[qe.len() as int + 7] == be32(ttl)[3]);
    assert(enc[qe.len() as int + 8] == be16(4)[0] && enc[qe.len() as int + 9] == be16(4)[1]);
    assert(enc[qe.len() as int + 10] == addr.o0 && enc[qe.len() as int + 11] == addr.o1 && enc[qe.len() as int + 12]
        == addr.o2 && enc[qe.len() as int + 13] == addr.o3);
    assert(u16_of(b[p], b[p + 1]) == 1);
    assert(u16_of(b[p + 2], b[p + 3]) == 1);
    assert(u32_of(b[p + 4], b[p + 5], b[p + 6], b[p + 7]) == ttl);
    assert(u16_of(b[p + 8], b[p + 9]) == 4);
    let q = p + 10;
    assert(b[q] == addr.o0 && b[q + 1] == addr.o1 && b[q + 2] == addr.o2 && b[q + 3] == addr.o3);
}

/// Round trip through a buffer: writing an address record's encoding
/// anywhere into a large-enough buffer and decoding the result at that
/// position reproduces name, TTL and address exactly, with class and
/// length normalized.
pub proof fn lemma_record_a_write_read(
    b: Seq<u8>,
    pos: int,
    name: Seq<u8>,
    ttl: u32,
    addr: Ipv4Addr,
)
    requires
        valid_name(name),
        0 <= pos,
        pos + record_a_encoding(name, ttl, addr).len() <= b.len(),
    ensures
        record_parse(written(b, pos, record_a_encoding(name, ttl, addr)), pos) == Ok::<_, Error>(
            (
                RecordModel {
                    name: name,
                    rtype: RecordType::A,
                    class: 1,
                    ttl: ttl,
                    rdlen: 4,
                    addr: Some(addr),
                },
                pos + record_a_encoding(name, ttl, addr).len(),
            ),
        ),
{
    let enc = record_a_encoding(name, ttl, addr);
    crate::wire::lemma_written_len(b, pos, enc);
    crate::wire::lemma_written_parts(b, pos, enc);
    lemma_record_a_round_trip(written(b, pos, enc), pos, name, ttl, addr);
}

} // verus!
