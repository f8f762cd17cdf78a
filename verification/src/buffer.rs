//! The cursor buffer: a fixed-capacity byte array with a read/write
//! position.
//!
//! Every accessor is bounds checked: an access that would reach past the
//! capacity fails with [`Error::OutOfBounds`] instead of wrapping or
//! reading out of bounds, and leaves the buffer untouched.  One buffer
//! is exclusively owned by the decode or encode of one message.

use vstd::prelude::*;

use crate::errors::Error;
use crate::wire::{
    be16, be32, join_labels, qname_encoding, qname_parse, u16_of, u32_of, valid_name, written,
    MAX_JUMPS,
};

verus! {

/// A fixed-capacity byte buffer with a cursor.
///
/// The capacity is fixed when the buffer is made; writes overwrite bytes
/// in place and never grow it.  The cursor never exceeds the capacity.
pub struct PacketBuffer {
    bytes: Vec<u8>,
    pos: usize,
}

impl PacketBuffer {
    /// The buffer's bytes.
    pub closed spec fn bytes_spec(&self) -> Seq<u8> {
        self.bytes@
    }

    /// The cursor position.
    pub closed spec fn pos_spec(&self) -> int {
        self.pos as int
    }

    /// The fixed capacity.
    pub open spec fn cap(&self) -> int {
        self.bytes_spec().len() as int
    }

    /// The cursor stays within the capacity.
    pub open spec fn wf(&self) -> bool {
        0 <= self.pos_spec() <= self.cap()
    }

    /// How many bytes remain between the cursor and the capacity.
    pub open spec fn remaining(&self) -> int {
        self.cap() - self.pos_spec()
    }

    /// Wraps a byte array (a received datagram, or a zeroed allocation
    /// about to be filled) as a buffer with the cursor at 0.
    pub fn new(bytes: Vec<u8>) -> (r: PacketBuffer)
        ensures
            r.wf(),
            r.bytes_spec() == bytes@,
            r.pos_spec() == 0,
    {
        PacketBuffer { bytes, pos: 0 }
    }

    /// The current cursor position.
    pub fn pos(&self) -> (r: usize)
        ensures
            r as int == self.pos_spec(),
    {
        self.pos
    }

    /// How many bytes remain between the cursor and the capacity.
    pub fn remaining_bytes(&self) -> (r: usize)
        requires
            self.wf(),
        ensures
            r as int == self.remaining(),
    {
        self.bytes.len() - self.pos
    }

    /// A view of the buffer's bytes.
    pub fn data(&self) -> (r: &Vec<u8>)
        ensures
            r@ == self.bytes_spec(),
    {
        &self.bytes
    }

    /// Advances the cursor by `n` bytes without reading them, to skip an
    /// unparsed payload; fails if that would pass the capacity.
    pub fn step(&mut self, n: usize) -> (r: Result<(), Error>)
        requires
            old(self).wf(),
        ensures
            final(self).wf(),
            final(self).bytes_spec() == old(self).bytes_spec(),
            old(self).remaining() >= n ==> r is Ok && final(self).pos_spec() == old(self).pos_spec()
                + n,
            old(self).remaining() < n ==> r == Err::<(), Error>(Error::OutOfBounds) && *final(self)
                == *old(self),
    {
        if n <= self.bytes.len() - self.pos {
            self.pos = self.pos + n;
            Ok(())
        } else {
            Err(Error::OutOfBounds)
        }
    }

    /// Reads one byte, advancing the cursor; fails if none remains.
    pub fn read_u8(&mut self) -> (r: Result<u8, Error>)
        requires
            old(self).wf(),
        ensures
            final(self).wf(),
            final(self).bytes_spec() == old(self).bytes_spec(),
            old(self).remaining() >= 1 ==> r == Ok::<u8, Error>(
                old(self).bytes_spec()[old(self).pos_spec()],
            ) && final(self).pos_spec() == old(self).pos_spec() + 1,
            old(self).remaining() < 1 ==> r == Err::<u8, Error>(Error::OutOfBounds) && *final(self)
                == *old(self),
    {
        if self.pos < self.bytes.len() {
            let b = self.bytes[self.pos];
            self.pos = self.pos + 1;
            Ok(b)
        } else {
            Err(Error::OutOfBounds)
        }
    }

    /// Reads two bytes as a big-endian integer, advancing the cursor;
    /// fails, moving nothing, if fewer than two remain.
    pub fn read_u16(&mut self) -> (r: Result<u16, Error>)
        requires
            old(self).wf(),
        ensures
            final(self).wf(),
            final(self).bytes_spec() == old(self).bytes_spec(),
            old(self).remaining() >= 2 ==> r == Ok::<u16, Error>(
                u16_of(
                    old(self).bytes_spec()[old(self).pos_spec()],
                    old(self).bytes_spec()[old(self).pos_spec() + 1],
                ),
            ) && final(self).pos_spec() == old(self).pos_spec() + 2,
            old(self).remaining() < 2 ==> r == Err::<u16, Error>(Error::OutOfBounds) && *final(self)
                == *old(self),
    {
        if 2 <= self.bytes.len() - self.pos {
            let hi = self.bytes[self.pos];
            let lo = self.bytes[self.pos + 1];
            self.pos = self.pos + 2;
            Ok(((hi as u16) << 8u16) | (lo as u16))
        } else {
            Err(Error::OutOfBounds)
        }
    }

    /// Reads four bytes as a big-endian integer, advancing the cursor;
    /// fails, moving nothing, if fewer than four remain.
    pub fn read_u32(&mut self) -> (r: Result<u32, Error>)
        requires
            old(self).wf(),
        ensures
            final(self).wf(),
            final(self).bytes_spec() == old(self).bytes_spec(),
            old(self).remaining() >= 4 ==> r == Ok::<u32, Error>(
                u32_of(
                    old(self).bytes_spec()[old(self).pos_spec()],
                    old(self).bytes_spec()[old(self).pos_spec() + 1],
                    old(self).bytes_spec()[old(self).pos_spec() + 2],
                    old(self).bytes_spec()[old(self).pos_spec() + 3],
                ),
            ) && final(self).pos_spec() == old(self).pos_spec() + 4,
            old(self).remaining() < 4 ==> r == Err::<u32, Error>(Error::OutOfBounds) && *final(self)
                == *old(self),
    {
        if 4 <= self.bytes.len() - self.pos {
            let b0 = self.bytes[self.pos];
            let b1 = self.bytes[self.pos + 1];
            let b2 = self.bytes[self.pos + 2];
            let b3 = self.bytes[self.pos + 3];
            self.pos = self.pos + 4;
            Ok(((b0 as u32) << 24u32) | ((b1 as u32) << 16u32) | ((b2 as u32) << 8u32) | (
            b3 as u32))
        } else {
            Err(Error::OutOfBounds)
        }
    }

    /// Writes the given bytes at the cursor, advancing it past them;
    /// fails, changing nothing, if they do not fit in the capacity.
    pub fn write_bytes(&mut self, src: &Vec<u8>) -> (r: Result<(), Error>)
        requires
            old(self).wf(),
        ensures
            final(self).wf(),
            old(self).remaining() >= src@.len() ==> r is Ok && final(self).bytes_spec() == written(
                old(self).bytes_spec(),
                old(self).pos_spec(),
                src@,
            ) && final(self).pos_spec() == old(self).pos_spec() + src@.len(),
            old(self).remaining() < src@.len() ==> r == Err::<(), Error>(Error::OutOfBounds)
                && *final(self) == *old(self),
    {
        let n = self.bytes.len();
        if src.len() > n - self.pos {
            return Err(Error::OutOfBounds);
        }
        let ghost b0 = self.bytes@;
        let ghost p = self.pos as int;
        let mut j: usize = 0;
        while j < src.len()
            invariant
                j <= src@.len(),
                p + src@.len() <= n,
                n == b0.len(),
                0 <= p,
                self.pos == p,
                self.bytes@ == written(b0, p, src@.subrange(0, j as int)),
                self.bytes@.len() == b0.len(),
            decreases src@.len() - j,
        {
            proof {
                crate::wire::lemma_written_push(b0, p, src@.subrange(0, j as int), src@[j as int]);
                assert(src@.subrange(0, j as int).push(src@[j as int]) =~= src@.subrange(
                    0,
                    j + 1,
                ));
            }
            self.bytes.set(self.pos + j, src[j]);
            j = j + 1;
        }
        proof {
            assert(src@.subrange(0, src@.len() as int) =~= src@);
        }
        self.pos = self.pos + src.len();
        Ok(())
    }

    /// Decodes the labels of a (possibly compressed) name by random
    /// access, without moving the cursor: the decoding position is a
    /// parameter, distinct from the buffer's own position.  Returns the
    /// separator-joined name and the position just past the name's bytes
    /// at `pos` (not past any pointed-to labels).
    fn read_labels(&self, pos: usize, budget: u32) -> (r: Result<(Vec<u8>, usize), Error>)
        ensures
            qname_parse(self.bytes_spec(), pos as int, budget as nat) matches Ok(p) ==> r matches
                Ok(t) && t.0@ == join_labels(p.0) && t.1 == p.1 && pos < p.1
                <= self.bytes_spec().len(),
            qname_parse(self.bytes_spec(), pos as int, budget as nat) matches Err(e) ==> r
                == Err::<(Vec<u8>, usize), Error>(e),
        decreases budget, self.bytes_spec().len() - pos,
    {
        let n = self.bytes.len();
        if pos >= n {
            return Err(Error::OutOfBounds);
        }
        let c = self.bytes[pos];
        if c == 0 {
            let name: Vec<u8> = Vec::new();
            proof {
                assert(name@ =~= join_labels(seq![]));
            }
            Ok((name, pos + 1))
        } else if c & 0xc0 == 0xc0 {
            if budget == 0 {
                Err(Error::MalformedName)
            } else if pos + 1 >= n {
                Err(Error::OutOfBounds)
            } else {
                let target = ((c & 0x3f) as usize) * 256 + (self.bytes[pos + 1] as usize);
                if target >= n {
                    Err(Error::MalformedName)
                } else {
                    match self.read_labels(target, budget - 1) {
                        Err(e) => Err(e),
                        Ok((name, _)) => Ok((name, pos + 2)),
                    }
                }
            }
        } else if c <= 63 {
            let l = c as usize;
            if l > n - (pos + 1) {
                Err(Error::OutOfBounds)
            } else {
                let mut label: Vec<u8> = Vec::new();
                let mut j: usize = 0;
                while j < l
                    invariant
                        j <= l,
                        pos + 1 + l <= n,
                        n == self.bytes_spec().len(),
                        label@ == self.bytes_spec().subrange(pos + 1, pos + 1 + j),
                    decreases l - j,
                {
                    label.push(self.bytes[pos + 1 + j]);
                    proof {
                        assert(label@ =~= self.bytes_spec().subrange(pos + 1, pos + 1 + j + 1));
                    }
                    j = j + 1;
                }
                match self.read_labels(pos + 1 + l, budget) {
                    Err(e) => Err(e),
                    Ok((mut rest, end)) => {
                        let ghost lab = self.bytes_spec().subrange(pos + 1, pos + 1 + l as int);
                        let ghost inner = qname_parse(
                            self.bytes_spec(),
                            pos + 1 + l as int,
                            budget as nat,
                        )->Ok_0.0;
                        proof {
                            crate::wire::lemma_qname_parse_ok(
                                self.bytes_spec(),
                                pos + 1 + l as int,
                                budget as nat,
                            );
                            assert((seq![lab] + inner).skip(1) =~= inner);
                            if inner.len() >= 1 {
                                crate::wire::lemma_join_nonempty(inner);
                            }
                        }
                        if rest.len() > 0 {
                            label.push(crate::wire::LABEL_SEPARATOR);
                            label.append(&mut rest);
                        }
                        Ok((label, end))
                    },
                }
            }
        } else {
            Err(Error::MalformedName)
        }
    }

    /// Decodes a domain name starting at the cursor.
    ///
    /// Labels are read and joined with the separator until a zero length
    /// byte; a pointer byte redirects the decoding to its 14-bit target
    /// while the cursor itself only moves past the two pointer bytes.
    /// At most [`MAX_JUMPS`] jumps are followed, so a pointer chain that
    /// loops fails with [`Error::MalformedName`] instead of being
    /// followed forever.  On failure the cursor does not move.
    pub fn read_qname(&mut self) -> (r: Result<Vec<u8>, Error>)
        requires
            old(self).wf(),
        ensures
            final(self).wf(),
            final(self).bytes_spec() == old(self).bytes_spec(),
            qname_parse(old(self).bytes_spec(), old(self).pos_spec(), MAX_JUMPS as nat) matches Ok(
                p,
            ) ==> r matches Ok(name) && name@ == join_labels(p.0) && final(self).pos_spec() == p.1,
            qname_parse(old(self).bytes_spec(), old(self).pos_spec(), MAX_JUMPS as nat) matches Err(
                e,
            ) ==> r == Err::<Vec<u8>, Error>(e) && *final(self) == *old(self),
    {
        let start = self.pos;
        match self.read_labels(start, MAX_JUMPS) {
            Err(e) => Err(e),
            Ok((name, end)) => {
                self.pos = end;
                Ok(name)
            },
        }
    }

    /// Writes one byte at the cursor, advancing it; fails, changing
    /// nothing, if the cursor is at the capacity.
    pub fn write_u8(&mut self, v: u8) -> (r: Result<(), Error>)
        requires
            old(self).wf(),
        ensures
            final(self).wf(),
            old(self).remaining() >= 1 ==> r is Ok && final(self).bytes_spec() == written(
                old(self).bytes_spec(),
                old(self).pos_spec(),
                seq![v],
            ) && final(self).pos_spec() == old(self).pos_spec() + 1,
            old(self).remaining() < 1 ==> r == Err::<(), Error>(Error::OutOfBounds) && *final(self)
                == *old(self),
    {
        let mut tmp: Vec<u8> = Vec::new();
        tmp.push(v);
        proof {
            assert(tmp@ =~= seq![v]);
        }
        self.write_bytes(&tmp)
    }

    /// Encodes a domain name as length-prefixed labels with a zero
    /// terminator, splitting it at the separators.  Writing never emits
    /// compression pointers.  Fails, changing nothing, if the encoding
    /// does not fit in the capacity.
    pub fn write_qname(&mut self, name: &Vec<u8>) -> (r: Result<(), Error>)
        requires
            old(self).wf(),
            valid_name(name@),
        ensures
            final(self).wf(),
            old(self).remaining() >= qname_encoding(name@).len() ==> r is Ok
                && final(self).bytes_spec() == written(
                old(self).bytes_spec(),
                old(self).pos_spec(),
                qname_encoding(name@),
            ) && final(self).pos_spec() == old(self).pos_spec() + qname_encoding(name@).len(),
            old(self).remaining() < qname_encoding(name@).len() ==> r == Err::<(), Error>(
                Error::OutOfBounds,
            ) && *final(self) == *old(self),
    {
        proof {
            assert(name@.skip(0) =~= name@);
        }
        let enc = encode_name(name, 0);
        self.write_bytes(&enc)
    }

    /// Writes a 16-bit integer as two big-endian bytes at the cursor,
    /// advancing it; fails, changing nothing, if they do not fit.
    pub fn write_u16(&mut self, v: u16) -> (r: Result<(), Error>)
        requires
            old(self).wf(),
        ensures
            final(self).wf(),
            old(self).remaining() >= 2 ==> r is Ok && final(self).bytes_spec() == written(
                old(self).bytes_spec(),
                old(self).pos_spec(),
                be16(v),
            ) && final(self).pos_spec() == old(self).pos_spec() + 2,
            old(self).remaining() < 2 ==> r == Err::<(), Error>(Error::OutOfBounds) && *final(self)
                == *old(self),
    {
        let mut tmp: Vec<u8> = Vec::new();
        tmp.push((v >> 8u16) as u8);
        tmp.push((v & 0xff) as u8);
        proof {
            assert(tmp@ =~= be16(v));
        }
        self.write_bytes(&tmp)
    }

    /// Writes a 32-bit integer as four big-endian bytes at the cursor,
    /// advancing it; fails, changing nothing, if they do not fit.
    pub fn write_u32(&mut self, v: u32) -> (r: Result<(), Error>)
        requires
            old(self).wf(),
        ensures
            final(self).wf(),
            old(self).remaining() >= 4 ==> r is Ok && final(self).bytes_spec() == written(
                old(self).bytes_spec(),
                old(self).pos_spec(),
                be32(v),
            ) && final(self).pos_spec() == old(self).pos_spec() + 4,
            old(self).remaining() < 4 ==> r == Err::<(), Error>(Error::OutOfBounds) && *final(self)
                == *old(self),
    {
        let mut tmp: Vec<u8> = Vec::new();
        tmp.push((v >> 24u32) as u8);
        tmp.push(((v >> 16u32) & 0xff) as u8);
        tmp.push(((v >> 8u32) & 0xff) as u8);
        tmp.push((v & 0xff) as u8);
        proof {
            assert(tmp@ =~= be32(v));
        }
        self.write_bytes(&tmp)
    }
}

/// Builds the wire encoding of the part of `name` from `start` on:
/// its labels, each written as a length byte followed by the label
/// bytes, closed by a zero byte.
fn encode_name(name: &Vec<u8>, start: usize) -> (out: Vec<u8>)
    requires
        start <= name@.len(),
        crate::wire::valid_labels(crate::wire::split_labels(name@.skip(start as int))),
    ensures
        out@ == crate::wire::encode_labels(crate::wire::split_labels(name@.skip(start as int)))
            + seq![0u8],
    decreases name@.len() - start,
{
    let ghost suffix = name@.skip(start as int);
    let ghost pieces = crate::wire::split_labels(suffix);
    let n = name.len();
    let mut i: usize = start;
    loop
        invariant_except_break
            start <= i <= n,
            n == name@.len(),
            forall|k: int| start <= k < i ==> name@[k] != crate::wire::LABEL_SEPARATOR,
        ensures
            start <= i <= n,
            n == name@.len(),
            forall|k: int| start <= k < i ==> name@[k] != crate::wire::LABEL_SEPARATOR,
            i == n || name@[i as int] == crate::wire::LABEL_SEPARATOR,
        decreases n - i,
    {
        if i >= n {
            break ;
        }
        if name[i] == crate::wire::LABEL_SEPARATOR {
            break ;
        }
        i = i + 1;
    }
    let l = i - start;
    proof {
        assert forall|k: int| 0 <= k < l implies suffix[k] != crate::wire::LABEL_SEPARATOR by {
            assert(name@[start + k] != crate::wire::LABEL_SEPARATOR);
        }
        crate::wire::lemma_first_sep_at(suffix, l as int);
        // the first piece of the suffix is name[start..i], and it is a
        // wire-carriable label
        if i < n {
            assert(suffix.subrange(0, l as int) =~= name@.subrange(start as int, i as int));
            assert(pieces[0] == suffix.subrange(0, l as int));
        } else {
            assert(suffix =~= name@.subrange(start as int, i as int));
            assert(pieces[0] == suffix);
        }
        assert(pieces[0].len() == l);
        assert(1 <= l <= 63);
    }
    let mut out: Vec<u8> = Vec::new();
    out.push(l as u8);
    let mut j: usize = start;
    while j < i
        invariant
            start <= j <= i <= n,
            l == i - start,
            l <= 63,
            n == name@.len(),
            out@ == seq![l as u8] + name@.subrange(start as int, j as int),
        decreases i - j,
    {
        out.push(name[j]);
        proof {
            assert(out@ =~= seq![l as u8] + name@.subrange(start as int, j + 1));
        }
        j = j + 1;
    }
    let ghost piece = name@.subrange(start as int, i as int);
    if i == n {
        out.push(0);
        proof {
            assert(pieces =~= seq![piece]);
            assert(pieces.skip(1) =~= Seq::<Seq<u8>>::empty());
            assert(crate::wire::encode_labels(pieces.skip(1)) =~= Seq::<u8>::empty());
            assert(crate::wire::encode_labels(pieces) =~= crate::wire::encode_label(piece));
            assert(out@ =~= crate::wire::encode_labels(pieces) + seq![0u8]);
        }
    } else {
        proof {
            let rest_suffix = name@.skip(i + 1);
            assert(suffix.subrange(l + 1, suffix.len() as int) =~= rest_suffix);
            let rest_pieces = crate::wire::split_labels(rest_suffix);
            assert(pieces =~= seq![piece] + rest_pieces);
            assert forall|k: int| 0 <= k < rest_pieces.len() implies 1
                <= #[trigger] rest_pieces[k].len() <= 63 by {
                assert(pieces[k + 1].len() >= 1);
                assert(pieces[k + 1].len() <= 63);
            }
        }
        let mut rest = encode_name(name, i + 1);
        out.append(&mut rest);
        proof {
            let rest_pieces = crate::wire::split_labels(name@.skip(i + 1));
            assert(pieces.skip(1) =~= rest_pieces);
            assert(crate::wire::encode_labels(pieces) =~= crate::wire::encode_label(piece)
                + crate::wire::encode_labels(rest_pieces));
            assert(out@ =~= crate::wire::encode_labels(pieces) + seq![0u8]);
        }
    }
    out
}

} // verus!
