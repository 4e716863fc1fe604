//! The mathematical model of compressed-name decoding.
//!
//! `qname_from` says, byte for byte, what one decode of a compressed domain
//! name produces: the decoded characters and the position just past the
//! name's literal encoding. The executable decoder in
//! `byte_packet_buffer` is proved to return exactly this outcome.

use vstd::prelude::*;

use crate::byte_packet_buffer::BytePacketBufferError;

verus! {

/// Capacity of the packet buffer in bytes; no read may touch an offset at or
/// beyond it.
pub const CAPACITY: usize = 512;

/// Greatest number of compression pointers that one name decode may follow.
pub const MAX_JUMPS: usize = 5;

/// The value of two bytes combined big-endian.
pub open spec fn be16(hi: u8, lo: u8) -> int {
    hi * 256 + lo
}

/// The value of four bytes combined big-endian, most significant first.
pub open spec fn be32(b0: u8, b1: u8, b2: u8, b3: u8) -> int {
    b0 * 0x1000000 + b1 * 0x10000 + b2 * 0x100 + b3
}

/// ASCII case folding of one label byte: uppercase letters map to their
/// lowercase counterparts, every other byte is kept as it is.
pub open spec fn fold_byte(b: u8) -> u8 {
    if 65 <= b && b <= 90 {
        (b + 32) as u8
    } else {
        b
    }
}

/// The character one label byte contributes to the decoded name.
pub open spec fn fold_char(b: u8) -> char {
    fold_byte(b) as char
}

/// The characters of one label, case-folded byte by byte.
pub open spec fn label_chars(bytes: Seq<u8>) -> Seq<char> {
    bytes.map_values(|b: u8| fold_char(b))
}

/// Two name fragments joined by a dot; an empty side contributes no dot, so
/// the result never gains a leading or trailing separator.
pub open spec fn join_name(a: Seq<char>, b: Seq<char>) -> Seq<char> {
    if a.len() == 0 {
        b
    } else if b.len() == 0 {
        a
    } else {
        a + seq!['.'] + b
    }
}

/// A length byte whose top two bits are both set announces a two-byte
/// compression pointer instead of a label.
pub open spec fn is_pointer_byte(len: u8) -> bool {
    len >= 192
}

/// The 14-bit absolute offset a compression pointer names: the low six bits
/// of the length byte followed by the whole next byte.
pub open spec fn pointer_target(len: u8, next: u8) -> nat {
    ((len - 192) * 256 + next) as nat
}

/// Outcome of decoding a compressed name from `buf` starting at `pos`, with
/// `jumps_left` pointer hops still allowed.
///
/// On success the pair holds the decoded characters and the position just
/// past the name's literal encoding at `pos`: past its terminating empty
/// label if the name uses no pointer, past the first pointer otherwise.
pub open spec fn qname_from(buf: Seq<u8>, pos: nat, jumps_left: nat) -> Result<
    (Seq<char>, nat),
    BytePacketBufferError,
>
    decreases jumps_left, (if pos < CAPACITY { CAPACITY - pos } else { 0 }),
{
    if jumps_left == 0 {
        Err(BytePacketBufferError::JumpLimitExceeded)
    } else if pos >= CAPACITY {
        Err(BytePacketBufferError::EndOfBuffer)
    } else {
        let len = buf[pos as int];
        if is_pointer_byte(len) {
            if pos + 1 >= CAPACITY {
                Err(BytePacketBufferError::EndOfBuffer)
            } else {
                match qname_from(
                    buf,
                    pointer_target(len, buf[pos as int + 1]),
                    (jumps_left - 1) as nat,
                ) {
                    Ok(p) => Ok((p.0, (pos + 2) as nat)),
                    Err(e) => Err(e),
                }
            }
        } else if len == 0 {
            Ok((Seq::empty(), (pos + 1) as nat))
        } else if pos + 1 + len >= CAPACITY {
            Err(BytePacketBufferError::EndOfBuffer)
        } else {
            let lbl = label_chars(buf.subrange(pos as int + 1, pos as int + 1 + len));
            match qname_from(buf, (pos + 1 + len) as nat, jumps_left) {
                Ok(p) => Ok((join_name(lbl, p.0), p.1)),
                Err(e) => Err(e),
            }
        }
    }
}

/// Decoding of one compressed name with the full jump budget, as the
/// executable decoder performs it.
pub open spec fn decode_qname_spec(buf: Seq<u8>, pos: nat) -> Result<
    (Seq<char>, nat),
    BytePacketBufferError,
> {
    qname_from(buf, pos, (MAX_JUMPS + 1) as nat)
}

/// Joining is associative when the middle fragment is nonempty, as every
/// label is.
pub proof fn lemma_join_assoc(a: Seq<char>, b: Seq<char>, c: Seq<char>)
    requires
        b.len() > 0,
    ensures
        join_name(a, join_name(b, c)) == join_name(join_name(a, b), c),
{
    if a.len() > 0 && c.len() > 0 {
        assert(join_name(a, join_name(b, c)) =~= join_name(join_name(a, b), c));
    }
}

/// A sequence is a prefix of itself followed by anything.
pub proof fn lemma_prefix_of_concat(a: Seq<char>, b: Seq<char>)
    ensures
        a.is_prefix_of(a + b),
{
    assert((a + b).subrange(0, a.len() as int) =~= a);
}

/// No character of `name` is an ASCII uppercase letter.
pub open spec fn no_uppercase(name: Seq<char>) -> bool {
    forall|i: int| 0 <= i < name.len() ==> !(65 <= name[i] as int && name[i] as int <= 90)
}

/// Case folding: whatever bytes the buffer holds, a successfully decoded
/// name carries no ASCII uppercase letter.
pub proof fn lemma_qname_folded(buf: Seq<u8>, pos: nat, jumps_left: nat)
    ensures
        qname_from(buf, pos, jumps_left) matches Ok(p) ==> no_uppercase(p.0),
    decreases jumps_left, (if pos < CAPACITY { CAPACITY - pos } else { 0 }),
{
    if jumps_left == 0 {
    } else if pos >= CAPACITY {
    } else {
        let len = buf[pos as int];
        if is_pointer_byte(len) {
            if pos + 1 < CAPACITY {
                lemma_qname_folded(
                    buf,
                    pointer_target(len, buf[pos as int + 1]),
                    (jumps_left - 1) as nat,
                );
            }
        } else if len == 0 {
        } else if pos + 1 + len < CAPACITY {
            lemma_qname_folded(buf, (pos + 1 + len) as nat, jumps_left);
            let lbl = label_chars(buf.subrange(pos as int + 1, pos as int + 1 + len));
            assert forall|i: int| 0 <= i < lbl.len() implies !(65 <= lbl[i] as int && lbl[i]
                as int <= 90) by {
                assert(lbl[i] == fold_char(buf.subrange(pos as int + 1, pos as int + 1 + len)[i]));
            }
            if qname_from(buf, (pos + 1 + len) as nat, jumps_left) is Ok {
                let rest = qname_from(buf, (pos + 1 + len) as nat, jumps_left)->Ok_0.0;
                assert(no_uppercase(join_name(lbl, rest)));
            }
        }
    }
}

/// The same follows for a decode with the full jump budget.
pub proof fn lemma_decode_folded(buf: Seq<u8>, pos: nat)
    ensures
        decode_qname_spec(buf, pos) matches Ok(p) ==> no_uppercase(p.0),
{
    lemma_qname_folded(buf, pos, (MAX_JUMPS + 1) as nat);
}

/// The buffer contents and the starting position determine the whole
/// outcome of a decode: the characters produced and the position left
/// behind. Two independent decodes of equal bytes agree.
pub proof fn lemma_decode_deterministic(buf1: Seq<u8>, pos1: nat, buf2: Seq<u8>, pos2: nat)
    requires
        buf1 == buf2,
        pos1 == pos2,
    ensures
        decode_qname_spec(buf1, pos1) == decode_qname_spec(buf2, pos2),
{
}

} // verus!
