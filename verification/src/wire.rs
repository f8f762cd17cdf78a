//! The mathematical model of the DNS wire format.
//!
//! Everything here is specification-level: how big-endian integers are
//! laid out, how a domain name is split into labels and joined back, how
//! a name is encoded as length-prefixed labels, and how a (possibly
//! compressed) name is decoded from a buffer.  The executable code in the
//! other modules is specified and proved against these functions.

use vstd::prelude::*;

use crate::errors::Error;

verus! {

/// The byte that separates labels in a textual domain name (`'.'`).
pub const LABEL_SEPARATOR: u8 = 46;

/// The most jumps a single compressed-name decode will follow before it
/// gives up; this bounds the work done on adversarial pointer chains.
pub const MAX_JUMPS: u32 = 5;

// ---------------------------------------------------------------------
// Big-endian integers
// ---------------------------------------------------------------------

/// The value of two bytes read as a big-endian 16-bit integer.
pub open spec fn u16_of(hi: u8, lo: u8) -> u16 {
    ((hi as u16) << 8) | (lo as u16)
}

/// The value of four bytes read as a big-endian 32-bit integer.
pub open spec fn u32_of(b0: u8, b1: u8, b2: u8, b3: u8) -> u32 {
    ((b0 as u32) << 24) | ((b1 as u32) << 16) | ((b2 as u32) << 8) | (b3 as u32)
}

/// The big-endian byte layout of a 16-bit integer.
pub open spec fn be16(v: u16) -> Seq<u8> {
    seq![(v >> 8) as u8, (v & 0xff) as u8]
}

/// The big-endian byte layout of a 32-bit integer.
pub open spec fn be32(v: u32) -> Seq<u8> {
    seq![(v >> 24) as u8, ((v >> 16) & 0xff) as u8, ((v >> 8) & 0xff) as u8, (v & 0xff) as u8]
}

/// Reading back the big-endian layout of a 16-bit integer yields the
/// integer.
pub proof fn lemma_u16_round_trip(v: u16)
    ensures
        u16_of((v >> 8) as u8, (v & 0xff) as u8) == v,
{
    assert(((((v >> 8) as u8) as u16) << 8) | (((v & 0xff) as u8) as u16) == v) by (bit_vector);
}

/// Reading back the big-endian layout of a 32-bit integer yields the
/// integer.
pub proof fn lemma_u32_round_trip(v: u32)
    ensures
        u32_of((v >> 24) as u8, ((v >> 16) & 0xff) as u8, ((v >> 8) & 0xff) as u8, (v & 0xff) as u8)
            == v,
{
    assert(((((v >> 24) as u8) as u32) << 24) | ((((v >> 16) & 0xff) as u8) as u32) << 16
        | ((((v >> 8) & 0xff) as u8) as u32) << 8 | (((v & 0xff) as u8) as u32) == v)
        by (bit_vector);
}

// ---------------------------------------------------------------------
// Names as labels
// ---------------------------------------------------------------------

/// The index of the first separator in `s`, or `s.len()` if there is
/// none.
pub open spec fn first_sep(s: Seq<u8>) -> int
    decreases s.len(),
{
    if s.len() == 0 {
        0
    } else if s[0] == LABEL_SEPARATOR {
        0
    } else {
        1 + first_sep(s.skip(1))
    }
}

/// `first_sep` points at the first separator: nothing before it is a
/// separator, and it is a separator unless it is the end of `s`.
pub proof fn lemma_first_sep(s: Seq<u8>)
    ensures
        0 <= first_sep(s) <= s.len(),
        forall|k: int| 0 <= k < first_sep(s) ==> s[k] != LABEL_SEPARATOR,
        first_sep(s) < s.len() ==> s[first_sep(s)] == LABEL_SEPARATOR,
    decreases s.len(),
{
    if s.len() == 0 {
    } else if s[0] == LABEL_SEPARATOR {
    } else {
        lemma_first_sep(s.skip(1));
        assert forall|k: int| 0 <= k < first_sep(s) implies s[k] != LABEL_SEPARATOR by {
            if k > 0 {
                assert(s.skip(1)[k - 1] != LABEL_SEPARATOR);
            }
        }
        if first_sep(s) < s.len() {
            assert(s.skip(1)[first_sep(s) - 1] == LABEL_SEPARATOR);
        }
    }
}

/// `first_sep(s)` is `j` whenever nothing before `j` is a separator and
/// `j` is a separator or the end of `s`.
pub proof fn lemma_first_sep_at(s: Seq<u8>, j: int)
    requires
        0 <= j <= s.len(),
        forall|k: int| 0 <= k < j ==> s[k] != LABEL_SEPARATOR,
        j < s.len() ==> s[j] == LABEL_SEPARATOR,
    ensures
        first_sep(s) == j,
    decreases s.len(),
{
    if s.len() == 0 {
    } else if s[0] == LABEL_SEPARATOR {
        assert(j == 0);
    } else {
        assert(s[0] != LABEL_SEPARATOR);
        assert(j != 0);
        assert forall|k: int| 0 <= k < j - 1 implies s.skip(1)[k] != LABEL_SEPARATOR by {
            assert(s[k + 1] != LABEL_SEPARATOR);
        }
        lemma_first_sep_at(s.skip(1), j - 1);
    }
}

/// A textual name split at its separators, as the sequence of its
/// labels.  A name with no separator is a single label; in particular
/// the empty name is the single empty label.
pub open spec fn split_labels(s: Seq<u8>) -> Seq<Seq<u8>>
    decreases s.len(),
{
    let i = first_sep(s);
    if 0 <= i && i < s.len() {
        seq![s.subrange(0, i)] + split_labels(s.subrange(i + 1, s.len() as int))
    } else {
        seq![s]
    }
}

/// Labels joined with the separator back into a textual name.
pub open spec fn join_labels(ls: Seq<Seq<u8>>) -> Seq<u8>
    decreases ls.len(),
{
    if ls.len() == 0 {
        seq![]
    } else if ls.len() == 1 {
        ls[0]
    } else {
        ls[0] + seq![LABEL_SEPARATOR] + join_labels(ls.skip(1))
    }
}

/// A sequence of labels that the wire format can carry: each label is
/// between 1 and 63 bytes long.
pub open spec fn valid_labels(ls: Seq<Seq<u8>>) -> bool {
    forall|k: int| 0 <= k < ls.len() ==> 1 <= #[trigger] ls[k].len() <= 63
}

/// A textual name that the wire format can carry: every label obtained
/// by splitting it is between 1 and 63 bytes long (so the name has no
/// empty labels, and does not begin or end with a separator).
pub open spec fn valid_name(s: Seq<u8>) -> bool {
    valid_labels(split_labels(s))
}

/// Splitting a name never yields zero labels.
pub proof fn lemma_split_nonempty(s: Seq<u8>)
    ensures
        split_labels(s).len() >= 1,
{
}

/// Joining the labels a name was split into reproduces the name.
pub proof fn lemma_join_split(s: Seq<u8>)
    ensures
        join_labels(split_labels(s)) == s,
    decreases s.len(),
{
    lemma_first_sep(s);
    let i = first_sep(s);
    if 0 <= i && i < s.len() {
        let rest = s.subrange(i + 1, s.len() as int);
        lemma_join_split(rest);
        let ls = split_labels(s);
        assert(ls.skip(1) =~= split_labels(rest));
        lemma_split_nonempty(rest);
        assert(join_labels(ls) =~= s);
    } else {
        assert(join_labels(split_labels(s)) =~= s);
    }
}

/// The join of one or more wire-carriable labels is nonempty.
pub proof fn lemma_join_nonempty(ls: Seq<Seq<u8>>)
    requires
        valid_labels(ls),
        ls.len() >= 1,
    ensures
        join_labels(ls).len() >= 1,
{
    assert(ls[0].len() >= 1);
}

// ---------------------------------------------------------------------
// Name encoding
// ---------------------------------------------------------------------

/// One label on the wire: a length byte followed by the label bytes.
pub open spec fn encode_label(l: Seq<u8>) -> Seq<u8> {
    seq![l.len() as u8] + l
}

/// A sequence of labels on the wire, without the terminating zero byte.
pub open spec fn encode_labels(ls: Seq<Seq<u8>>) -> Seq<u8>
    decreases ls.len(),
{
    if ls.len() == 0 {
        seq![]
    } else {
        encode_label(ls[0]) + encode_labels(ls.skip(1))
    }
}

/// A whole name on the wire: its labels, each length-prefixed, followed
/// by a zero-length label.  Encoding never emits compression pointers.
pub open spec fn qname_encoding(name: Seq<u8>) -> Seq<u8> {
    encode_labels(split_labels(name)) + seq![0u8]
}

// ---------------------------------------------------------------------
// Name decoding
// ---------------------------------------------------------------------

/// The buffer offset a compression pointer aims at: the low six bits of
/// the first byte and all eight of the second, as a 14-bit integer.
pub open spec fn pointer_target(c: u8, d: u8) -> int {
    (c & 0x3f) * 256 + d
}

/// Decoding a (possibly compressed) name from `b` starting at `pos`,
/// with at most `budget` pointer jumps left.
///
/// The decode reads a length byte.  Zero ends the name.  A byte with
/// both high bits set is a pointer: decoding continues at the 14-bit
/// target, but the position handed back is just past the two pointer
/// bytes, wherever the pointed-to labels lay.  An ordinary length
/// (1 to 63) prefixes that many label bytes.  Anything else, a pointer
/// aiming outside the buffer, or a jump past the budget is malformed;
/// reading past the end of the buffer is out of bounds.
pub open spec fn qname_parse(b: Seq<u8>, pos: int, budget: nat) -> Result<(Seq<Seq<u8>>, int), Error>
    decreases budget, b.len() - pos,
{
    if pos < 0 || pos >= b.len() {
        Err(Error::OutOfBounds)
    } else {
        let c = b[pos];
        if c == 0 {
            Ok((seq![], pos + 1))
        } else if c & 0xc0 == 0xc0 {
            if budget == 0 {
                Err(Error::MalformedName)
            } else if pos + 1 >= b.len() {
                Err(Error::OutOfBounds)
            } else {
                let target = pointer_target(c, b[pos + 1]);
                if target >= b.len() {
                    Err(Error::MalformedName)
                } else {
                    match qname_parse(b, target, (budget - 1) as nat) {
                        Err(e) => Err(e),
                        Ok((ls, _)) => Ok((ls, pos + 2)),
                    }
                }
            }
        } else if c <= 63 {
            let l = c as int;
            if pos + 1 + l > b.len() {
                Err(Error::OutOfBounds)
            } else {
                match qname_parse(b, pos + 1 + l, budget) {
                    Err(e) => Err(e),
                    Ok((ls, end)) => Ok((seq![b.subrange(pos + 1, pos + 1 + l)] + ls, end)),
                }
            }
        } else {
            Err(Error::MalformedName)
        }
    }
}

/// A successful decode yields wire-carriable labels and ends inside the
/// buffer, past where it started.
pub proof fn lemma_qname_parse_ok(b: Seq<u8>, pos: int, budget: nat)
    requires
        qname_parse(b, pos, budget) is Ok,
    ensures
        qname_parse(b, pos, budget) matches Ok(p) ==> {
            &&& valid_labels(p.0)
            &&& pos < p.1 <= b.len()
        },
    decreases budget, b.len() - pos,
{
    let c = b[pos];
    if c == 0 {
    } else if c & 0xc0 == 0xc0 {
        let target = pointer_target(c, b[pos + 1]);
        lemma_qname_parse_ok(b, target, (budget - 1) as nat);
    } else if c <= 63 {
        let l = c as int;
        lemma_qname_parse_ok(b, pos + 1 + l, budget);
        let lab = b.subrange(pos + 1, pos + 1 + l);
        let ls = qname_parse(b, pos + 1 + l, budget)->Ok_0.0;
        assert forall|k: int| 0 <= k < (seq![lab] + ls).len() implies 1 <= #[trigger] (seq![lab]
            + ls)[k].len() <= 63 by {
            if k > 0 {
                assert((seq![lab] + ls)[k] == ls[k - 1]);
            }
        }
    } else {
    }
}

/// Decoding an uncompressed encoding placed at `pos` succeeds, yields
/// exactly the labels that were encoded, and stops just past the
/// terminating zero byte, whatever the jump budget.
pub proof fn lemma_qname_parse_encoding(b: Seq<u8>, pos: int, ls: Seq<Seq<u8>>, budget: nat)
    requires
        valid_labels(ls),
        0 <= pos,
        pos + encode_labels(ls).len() + 1 <= b.len(),
        b.subrange(pos, pos + encode_labels(ls).len() + 1) == encode_labels(ls) + seq![0u8],
    ensures
        qname_parse(b, pos, budget) == Ok::<_, Error>((ls, pos + encode_labels(ls).len() + 1)),
    decreases ls.len(),
{
    let enc = encode_labels(ls) + seq![0u8];
    assert forall|k: int| 0 <= k < enc.len() implies b[pos + k] == enc[k] by {
        assert(b.subrange(pos, pos + encode_labels(ls).len() + 1)[k] == b[pos + k]);
    }
    if ls.len() == 0 {
        assert(b[pos + 0] == enc[0]);
        assert(b[pos] == 0);
        assert(qname_parse(b, pos, budget)->Ok_0.0 =~= ls);
    } else {
        let l0 = ls[0];
        let rest = ls.skip(1);
        let c = b[pos];
        assert(enc[0] == l0.len() as u8);
        assert(c == l0.len() as u8);
        assert(1 <= l0.len() <= 63);
        assert(c as int == l0.len());
        assert(c & 0xc0 != 0xc0) by (bit_vector)
            requires
                1 <= c <= 63,
        ;
        let l = c as int;
        assert(encode_labels(ls).len() == 1 + l0.len() + encode_labels(rest).len());
        assert(pos + 1 + l <= b.len());
        // the label bytes are l0
        assert(b.subrange(pos + 1, pos + 1 + l) =~= l0) by {
            assert forall|k: int| 0 <= k < l implies b.subrange(pos + 1, pos + 1 + l)[k] == l0[k] by {
                assert(b[pos + 1 + k] == enc[1 + k]);
                assert(enc[1 + k] == (encode_label(l0) + encode_labels(rest))[1 + k]);
            }
        }
        // the rest of the region is the encoding of the remaining labels
        let pos2 = pos + 1 + l;
        assert forall|k: int| 0 <= k < encode_labels(rest).len() + 1 implies b.subrange(
            pos2,
            pos2 + encode_labels(rest).len() + 1,
        )[k] == (encode_labels(rest) + seq![0u8])[k] by {
            assert(b[pos2 + k] == enc[1 + l + k]);
        }
        assert(b.subrange(pos2, pos2 + encode_labels(rest).len() + 1) =~= encode_labels(rest)
            + seq![0u8]);
        assert forall|k: int| 0 <= k < rest.len() implies 1 <= #[trigger] rest[k].len() <= 63 by {
            assert(ls[k + 1].len() >= 1);
        }
        lemma_qname_parse_encoding(b, pos2, rest, budget);
        assert(seq![l0] + rest =~= ls);
        assert(qname_parse(b, pos, budget) == Ok::<_, Error>((
            seq![b.subrange(pos + 1, pos + 1 + l)] + rest,
            pos2 + encode_labels(rest).len() + 1,
        )));
    }
}

// ---------------------------------------------------------------------
// Overwriting a region of a buffer
// ---------------------------------------------------------------------

/// `b` with the bytes `w` overlaid starting at `pos`; everything before
/// and after the region is kept.  Meaningful when the region lies inside
/// `b`: writes never grow the buffer.
pub open spec fn written(b: Seq<u8>, pos: int, w: Seq<u8>) -> Seq<u8> {
    b.subrange(0, pos) + w + b.subrange(pos + w.len(), b.len() as int)
}

/// Overlaying a region inside the buffer keeps its length.
pub proof fn lemma_written_len(b: Seq<u8>, pos: int, w: Seq<u8>)
    requires
        0 <= pos,
        pos + w.len() <= b.len(),
    ensures
        written(b, pos, w).len() == b.len(),
{
}

/// Two adjacent overlays are one overlay of the concatenation.
pub proof fn lemma_written_app(b: Seq<u8>, pos: int, w1: Seq<u8>, w2: Seq<u8>)
    requires
        0 <= pos,
        pos + w1.len() + w2.len() <= b.len(),
    ensures
        written(written(b, pos, w1), pos + w1.len(), w2) == written(b, pos, w1 + w2),
{
    assert(written(written(b, pos, w1), pos + w1.len(), w2) =~= written(b, pos, w1 + w2));
}

/// Updating the byte just past an overlaid region extends the overlay.
pub proof fn lemma_written_push(b: Seq<u8>, pos: int, w: Seq<u8>, x: u8)
    requires
        0 <= pos,
        pos + w.len() + 1 <= b.len(),
    ensures
        written(b, pos, w).update(pos + w.len(), x) == written(b, pos, w.push(x)),
{
    assert(written(b, pos, w).update(pos + w.len(), x) =~= written(b, pos, w.push(x)));
}

/// What an overlay holds: the overlaid bytes inside the region, the old
/// bytes outside it.
pub proof fn lemma_written_parts(b: Seq<u8>, pos: int, w: Seq<u8>)
    requires
        0 <= pos,
        pos + w.len() <= b.len(),
    ensures
        written(b, pos, w).subrange(pos, pos + w.len()) == w,
        written(b, pos, w).subrange(0, pos) == b.subrange(0, pos),
        written(b, pos, w).subrange(pos + w.len(), b.len() as int) == b.subrange(
            pos + w.len(),
            b.len() as int,
        ),
{
    assert(written(b, pos, w).subrange(pos, pos + w.len()) =~= w);
    assert(written(b, pos, w).subrange(0, pos) =~= b.subrange(0, pos));
    assert(written(b, pos, w).subrange(pos + w.len(), b.len() as int) =~= b.subrange(
        pos + w.len(),
        b.len() as int,
    ));
}

// ---------------------------------------------------------------------
// Compression safety
// ---------------------------------------------------------------------

/// The offsets at which a decode starting at `pos` takes a pointer jump,
/// in the order the jumps are taken.  Jumps that the decode refuses
/// (budget exhausted, pointer bytes or target out of range) are not
/// taken and so are not listed.
pub open spec fn qname_sites(b: Seq<u8>, pos: int, budget: nat) -> Seq<int>
    decreases budget, b.len() - pos,
{
    if pos < 0 || pos >= b.len() {
        seq![]
    } else {
        let c = b[pos];
        if c == 0 {
            seq![]
        } else if c & 0xc0 == 0xc0 {
            if budget == 0 || pos + 1 >= b.len() {
                seq![]
            } else {
                let target = pointer_target(c, b[pos + 1]);
                if target >= b.len() {
                    seq![]
                } else {
                    seq![pos] + qname_sites(b, target, (budget - 1) as nat)
                }
            }
        } else if c <= 63 {
            let l = c as int;
            if pos + 1 + l > b.len() {
                seq![]
            } else {
                qname_sites(b, pos + 1 + l, budget)
            }
        } else {
            seq![]
        }
    }
}

/// Raising the jump budget of a decode that already succeeds changes
/// neither its result nor the jumps it takes.
pub proof fn lemma_qname_budget_mono(b: Seq<u8>, pos: int, b1: nat, b2: nat)
    requires
        b1 <= b2,
        qname_parse(b, pos, b1) is Ok,
    ensures
        qname_parse(b, pos, b2) == qname_parse(b, pos, b1),
        qname_sites(b, pos, b2) == qname_sites(b, pos, b1),
    decreases b1, b.len() - pos,
{
    let c = b[pos];
    if c == 0 {
    } else if c & 0xc0 == 0xc0 {
        let target = pointer_target(c, b[pos + 1]);
        lemma_qname_budget_mono(b, target, (b1 - 1) as nat, (b2 - 1) as nat);
    } else if c <= 63 {
        lemma_qname_budget_mono(b, pos + 1 + c as int, b1, b2);
    } else {
    }
}

/// Along a successful decode, the decode restarted at the `i`-th jump
/// site, with the budget that was left there, also succeeds and takes
/// exactly the remaining jumps.
pub proof fn lemma_qname_sites_suffix(b: Seq<u8>, pos: int, budget: nat, i: int)
    requires
        qname_parse(b, pos, budget) is Ok,
        0 <= i < qname_sites(b, pos, budget).len(),
    ensures
        i < budget,
        qname_parse(b, qname_sites(b, pos, budget)[i], (budget - i) as nat) is Ok,
        qname_sites(b, qname_sites(b, pos, budget)[i], (budget - i) as nat) == qname_sites(
            b,
            pos,
            budget,
        ).skip(i),
    decreases budget, b.len() - pos,
{
    let sites = qname_sites(b, pos, budget);
    let c = b[pos];
    if c == 0 {
    } else if c & 0xc0 == 0xc0 {
        let target = pointer_target(c, b[pos + 1]);
        let inner = qname_sites(b, target, (budget - 1) as nat);
        assert(sites == seq![pos] + inner);
        if i == 0 {
            assert(sites[0] == pos);
            assert(sites.skip(0) =~= sites);
        } else {
            lemma_qname_sites_suffix(b, target, (budget - 1) as nat, i - 1);
            assert(sites[i] == inner[i - 1]);
            assert(sites.skip(i) =~= inner.skip(i - 1));
        }
    } else if c <= 63 {
        lemma_qname_sites_suffix(b, pos + 1 + c as int, budget, i);
    } else {
    }
}

/// A successful decode never takes two jumps from the same offset: its
/// pointer chain visits each offset at most once.
pub proof fn lemma_qname_no_revisit(b: Seq<u8>, pos: int, budget: nat, i: int, j: int)
    requires
        qname_parse(b, pos, budget) is Ok,
        0 <= i < j < qname_sites(b, pos, budget).len(),
    ensures
        qname_sites(b, pos, budget)[i] != qname_sites(b, pos, budget)[j],
{
    let sites = qname_sites(b, pos, budget);
    if sites[i] == sites[j] {
        let s = sites[i];
        let m = j - i;
        lemma_qname_sites_suffix(b, pos, budget, i);
        let mid = (budget - i) as nat;
        let sites_i = qname_sites(b, s, mid);
        assert(sites_i == sites.skip(i));
        assert(sites_i[m] == sites[j]);
        lemma_qname_sites_suffix(b, s, mid, m);
        let low = (mid - m) as nat;
        assert(qname_sites(b, s, low) == sites_i.skip(m));
        lemma_qname_budget_mono(b, s, low, mid);
        assert(sites_i =~= sites_i.skip(m));
        assert(sites_i.len() == sites_i.len() - m);
        assert(false);
    }
}

/// Compression safety: a name whose pointer chain revisits an offset it
/// has already jumped from is never decoded successfully — the decode
/// fails cleanly instead of following the chain forever.
pub proof fn lemma_qname_revisit_fails(b: Seq<u8>, pos: int, budget: nat, i: int, j: int)
    requires
        0 <= i < j < qname_sites(b, pos, budget).len(),
        qname_sites(b, pos, budget)[i] == qname_sites(b, pos, budget)[j],
    ensures
        qname_parse(b, pos, budget) is Err,
{
    if qname_parse(b, pos, budget) is Ok {
        lemma_qname_no_revisit(b, pos, budget, i, j);
    }
}

/// Decoding the encoding of a wire-carriable name reproduces the name.
pub proof fn lemma_qname_round_trip(b: Seq<u8>, pos: int, name: Seq<u8>, budget: nat)
    requires
        valid_name(name),
        0 <= pos,
        pos + qname_encoding(name).len() <= b.len(),
        b.subrange(pos, pos + qname_encoding(name).len() as int) == qname_encoding(name),
    ensures
        qname_parse(b, pos, budget) matches Ok(p) && join_labels(p.0) == name && p.1 == pos
            + qname_encoding(name).len(),
{
    lemma_qname_parse_encoding(b, pos, split_labels(name), budget);
    lemma_join_split(name);
}

} // verus!
