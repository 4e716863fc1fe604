//! The bounded byte cursor and the executable name decoder.

use vstd::prelude::*;
use vstd::string::StringExecFns;

use crate::qname::CAPACITY;
use crate::qname::MAX_JUMPS;
use crate::qname::be16;
use crate::qname::be32;
use crate::qname::decode_qname_spec;
use crate::qname::fold_char;
use crate::qname::join_name;
use crate::qname::label_chars;
use crate::qname::lemma_join_assoc;
use crate::qname::lemma_prefix_of_concat;
use crate::qname::pointer_target;
use crate::qname::qname_from;

verus! {

/// Relies on `String::push`: it appends the given character to the end of
/// the string.
pub assume_specification[ String::push ](s: &mut String, ch: char)
    ensures
        final(s)@ == old(s)@.push(ch),
;

/// The character one label byte contributes to the decoded name: ASCII
/// uppercase folded to lowercase, every other byte kept as it is.
pub fn fold_label_byte(b: u8) -> (c: char)
    ensures
        c == fold_char(b),
{
    let f: u8 = if b >= 65 && b <= 90 {
        b + 32
    } else {
        b
    };
    f as char
}

/// The two ways a cursor operation can fail: an access at or beyond the
/// buffer's capacity, or a compression-pointer chain longer than the fixed
/// jump budget.
#[derive(Clone, Copy, Debug, PartialEq, Eq, Structural)]
pub enum BytePacketBufferError {
    EndOfBuffer,
    JumpLimitExceeded,
}

impl BytePacketBufferError {
    /// A human-readable description of the failure; each kind renders its
    /// own distinct message.
    pub fn describe(&self) -> (r: String)
        ensures
            *self == BytePacketBufferError::EndOfBuffer ==> r@ == "end of buffer"@,
            *self == BytePacketBufferError::JumpLimitExceeded ==> r@ == "jump limit exceeded"@,
    {
        match self {
            BytePacketBufferError::EndOfBuffer => String::from_str("end of buffer"),
            BytePacketBufferError::JumpLimitExceeded => String::from_str("jump limit exceeded"),
        }
    }
}

/// The two failure kinds never render the same message.
pub proof fn lemma_descriptions_distinct()
    ensures
        "end of buffer"@ != "jump limit exceeded"@,
{
    reveal_strlit("end of buffer");
    reveal_strlit("jump limit exceeded");
    assert("end of buffer"@.len() == 13);
    assert("jump limit exceeded"@.len() == 19);
}

/// A fixed-capacity packet buffer together with the current read position.
/// The position may point past the capacity after `step` or `seek`; the next
/// read at such a position fails rather than wrap or panic.
pub struct BytePacketBuffer {
    pub buf: [u8; 512],
    pub pos: usize,
}

impl BytePacketBuffer {
    /// A fresh cursor over a zero-initialized buffer, positioned at the start.
    pub fn new() -> (r: BytePacketBuffer)
        ensures
            r.pos == 0,
            forall|i: int| 0 <= i < CAPACITY ==> r.buf@[i] == 0u8,
    {
        BytePacketBuffer { buf: [0; 512], pos: 0 }
    }

    /// Current position within the buffer.
    pub fn pos(&self) -> (r: usize)
        ensures
            r == self.pos,
    {
        self.pos
    }

    /// Step the position forward by `steps`. No bound is checked here:
    /// validity is deferred to the next read that uses the new position.
    pub fn step(&mut self, steps: usize)
        requires
            old(self).pos + steps <= usize::MAX,
        ensures
            final(self).pos == old(self).pos + steps,
            final(self).buf == old(self).buf,
    {
        self.pos = self.pos + steps;
    }

    /// Move the position to the absolute offset `pos`. No bound is checked
    /// here: validity is deferred to the next read that uses the new position.
    pub fn seek(&mut self, pos: usize)
        ensures
            final(self).pos == pos,
            final(self).buf == old(self).buf,
    {
        self.pos = pos;
    }

    /// Read the byte at the current position and advance by one; fails with
    /// `EndOfBuffer` when the position is at or beyond the capacity.
    pub fn read(&mut self) -> (r: Result<u8, BytePacketBufferError>)
        ensures
            final(self).buf == old(self).buf,
            old(self).pos < CAPACITY ==> r == Ok::<u8, BytePacketBufferError>(
                old(self).buf@[old(self).pos as int],
            ) && final(self).pos == old(self).pos + 1,
            old(self).pos >= CAPACITY ==> r == Err::<u8, BytePacketBufferError>(
                BytePacketBufferError::EndOfBuffer,
            ) && final(self).pos == old(self).pos,
    {
        if self.pos >= 512 {
            return Err(BytePacketBufferError::EndOfBuffer);
        }
        let res = self.buf[self.pos];
        self.pos = self.pos + 1;
        Ok(res)
    }

    /// The byte at the absolute offset `pos`, without moving the position;
    /// fails with `EndOfBuffer` when `pos` is at or beyond the capacity.
    pub fn get(&mut self, pos: usize) -> (r: Result<u8, BytePacketBufferError>)
        ensures
            *final(self) == *old(self),
            pos < CAPACITY ==> r == Ok::<u8, BytePacketBufferError>(old(self).buf@[pos as int]),
            pos >= CAPACITY ==> r == Err::<u8, BytePacketBufferError>(
                BytePacketBufferError::EndOfBuffer,
            ),
    {
        if pos >= 512 {
            return Err(BytePacketBufferError::EndOfBuffer);
        }
        Ok(self.buf[pos])
    }

    /// A read-only view of `len` bytes starting at `start`, without moving
    /// the position. A range whose end reaches or passes the capacity is
    /// refused: the accepted ranges are exactly those with
    /// `start + len < CAPACITY`, so a range ending at the last valid index is
    /// refused as well.
    pub fn get_range(&mut self, start: usize, len: usize) -> (r: Result<
        &[u8],
        BytePacketBufferError,
    >)
        ensures
            *final(self) == *old(self),
            start + len < CAPACITY ==> (r matches Ok(sl) && sl@ == old(self).buf@.subrange(
                start as int,
                start + len,
            )),
            start + len >= CAPACITY ==> r == Err::<&[u8], BytePacketBufferError>(
                BytePacketBufferError::EndOfBuffer,
            ),
    {
        if start >= 512 || len >= 512 || start + len >= 512 {
            return Err(BytePacketBufferError::EndOfBuffer);
        }
        Ok(vstd::slice::slice_subrange(self.buf.as_slice(), start, start + len))
    }

    /// Read two bytes big-endian, advancing by two; fails with `EndOfBuffer`
    /// when the two bytes do not both lie below the capacity.
    pub fn read_u16(&mut self) -> (r: Result<u16, BytePacketBufferError>)
        ensures
            final(self).buf == old(self).buf,
            old(self).pos + 2 <= CAPACITY ==> (r matches Ok(v) && v == be16(
                old(self).buf@[old(self).pos as int],
                old(self).buf@[old(self).pos + 1],
            ) && final(self).pos == old(self).pos + 2),
            old(self).pos + 2 > CAPACITY ==> r == Err::<u16, BytePacketBufferError>(
                BytePacketBufferError::EndOfBuffer,
            ) && final(self).pos == (if old(self).pos >= CAPACITY {
                old(self).pos as int
            } else {
                CAPACITY as int
            }),
    {
        let hi = self.read()?;
        let lo = self.read()?;
        let res = ((hi as u16) << 8) | (lo as u16);
        proof {
            assert((((hi as u16) << 8) | (lo as u16)) == (hi as u16) * 256 + (lo as u16))
                by (bit_vector);
        }
        Ok(res)
    }

    /// Read four bytes big-endian, advancing by four; fails with
    /// `EndOfBuffer` when the four bytes do not all lie below the capacity.
    pub fn read_u32(&mut self) -> (r: Result<u32, BytePacketBufferError>)
        ensures
            final(self).buf == old(self).buf,
            old(self).pos + 4 <= CAPACITY ==> (r matches Ok(v) && v == be32(
                old(self).buf@[old(self).pos as int],
                old(self).buf@[old(self).pos + 1],
                old(self).buf@[old(self).pos + 2],
                old(self).buf@[old(self).pos + 3],
            ) && final(self).pos == old(self).pos + 4),
            old(self).pos + 4 > CAPACITY ==> r == Err::<u32, BytePacketBufferError>(
                BytePacketBufferError::EndOfBuffer,
            ) && final(self).pos == (if old(self).pos >= CAPACITY {
                old(self).pos as int
            } else {
                CAPACITY as int
            }),
    {
        let b0 = self.read()?;
        let b1 = self.read()?;
        let b2 = self.read()?;
        let b3 = self.read()?;
        let res = ((b0 as u32) << 24) | ((b1 as u32) << 16) | ((b2 as u32) << 8) | (b3 as u32);
        proof {
            assert((((b0 as u32) << 24) | ((b1 as u32) << 16) | ((b2 as u32) << 8) | (b3 as u32))
                == (b0 as u32) * 0x1000000 + (b1 as u32) * 0x10000 + (b2 as u32) * 0x100 + (
            b3 as u32)) by (bit_vector);
        }
        Ok(res)
    }

    /// Decode one compressed domain name starting at the current position and
    /// append it, case-folded and dot-separated, to `outstr`.
    ///
    /// On success the position ends just past the name's literal encoding:
    /// past its terminating empty label when no pointer was followed, two
    /// bytes past the first pointer otherwise, so the fields after the name
    /// parse from the right place however many pointers were chased. On
    /// failure the buffer is unchanged and `outstr` has at most grown; the
    /// caller abandons the message, so no more is promised of that state.
    pub fn read_qname(&mut self, outstr: &mut String) -> (r: Result<
        (),
        BytePacketBufferError,
    >)
        ensures
            final(self).buf == old(self).buf,
            match decode_qname_spec(old(self).buf@, old(self).pos as nat) {
                Ok(p) => r == Ok::<(), BytePacketBufferError>(()) && final(outstr)@ == old(
                    outstr,
                )@ + p.0 && final(self).pos == p.1,
                Err(e) => r == Err::<(), BytePacketBufferError>(e) && old(
                    outstr,
                )@.is_prefix_of(final(outstr)@),
            },
    {
        let ghost buf0: Seq<u8> = self.buf@;
        let ghost start: nat = self.pos as nat;
        let ghost out0: Seq<char> = outstr@;

        // Track the reading position locally: a jump moves it backward while
        // the cursor's own position must stay pinned to the literal encoding.
        let mut pos: usize = self.pos();
        let mut jumped: bool = false;
        let mut jumps: usize = 0;
        // No separator before the first label, a dot before each later one.
        let mut first: bool = true;
        let ghost mut acc: Seq<char> = Seq::<char>::empty();

        loop
            invariant_except_break
                buf0 == old(self).buf@,
                start == old(self).pos as nat,
                out0 == old(outstr)@,
                self.buf == old(self).buf,
                self.buf@ == buf0,
                jumps <= MAX_JUMPS + 1,
                jumped <==> jumps > 0,
                !jumped ==> self.pos == start,
                outstr@ == out0 + acc,
                first <==> acc.len() == 0,
                match qname_from(buf0, pos as nat, (MAX_JUMPS + 1 - jumps) as nat) {
                    Ok(p) => (qname_from(buf0, start, (MAX_JUMPS + 1) as nat) matches Ok(q)
                        && q.0 == join_name(acc, p.0) && q.1 == (if jumped {
                        self.pos as nat
                    } else {
                        p.1
                    })),
                    Err(e) => qname_from(buf0, start, (MAX_JUMPS + 1) as nat) == Err::<
                        (Seq<char>, nat),
                        BytePacketBufferError,
                    >(e),
                },
            ensures
                self.buf == old(self).buf,
                self.buf@ == buf0,
                outstr@ == out0 + acc,
                (qname_from(buf0, start, (MAX_JUMPS + 1) as nat) matches Ok(q) && q.0 == acc
                    && q.1 == (if jumped {
                    self.pos as nat
                } else {
                    pos as nat
                })),
                !jumped ==> self.pos == start,
            decreases (MAX_JUMPS + 1 - jumps) as int, (if (pos as int) < CAPACITY as int {
                CAPACITY as int - pos as int
            } else {
                0int
            }),
        {
            proof {
                lemma_prefix_of_concat(out0, acc);
            }
            // A malicious packet may hold a pointer cycle; give up once the
            // chain outruns the jump budget.
            if jumps > MAX_JUMPS {
                return Err(BytePacketBufferError::JumpLimitExceeded);
            }
            let ghost jl: nat = (MAX_JUMPS + 1 - jumps) as nat;
            let ghost p0: nat = pos as nat;
            let len = match self.get(pos) {
                Ok(b) => b,
                Err(e) => return Err(e),
            };
            if (len & 0xC0) == 0xC0 {
                proof {
                    assert(len >= 192) by (bit_vector)
                        requires
                            (len & 0xC0) == 0xC0,
                    ;
                }
                // A pointer: pin the cursor past this two-byte field on the
                // first jump, then follow the 14-bit target offset.
                if !jumped {
                    self.seek(pos + 2);
                }
                let b2 = match self.get(pos + 1) {
                    Ok(b) => b,
                    Err(e) => return Err(e),
                };
                let lenw: u16 = len as u16;
                let b2w: u16 = b2 as u16;
                let offset = ((lenw & 0x3F) << 8) | b2w;
                proof {
                    assert((((lenw & 0x3F) << 8) | b2w) == (lenw - 192) * 256 + b2w)
                        by (bit_vector)
                        requires
                            192 <= lenw < 256 && b2w < 256,
                    ;
                    assert(offset as nat == pointer_target(len, buf0[p0 as int + 1]));
                }
                pos = offset as usize;
                jumped = true;
                jumps = jumps + 1;
                proof {
                    let target = pointer_target(len, buf0[p0 as int + 1]);
                    if qname_from(buf0, target, (jl - 1) as nat) is Ok {
                        let p_next = qname_from(buf0, target, (jl - 1) as nat)->Ok_0;
                        assert(qname_from(buf0, p0, jl) == Ok::<
                            (Seq<char>, nat),
                            BytePacketBufferError,
                        >((p_next.0, (p0 + 2) as nat)));
                    }
                }
            } else {
                proof {
                    assert(len < 192) by (bit_vector)
                        requires
                            (len & 0xC0) != 0xC0,
                    ;
                }
                // A label: move past the length byte; a zero length ends the
                // name.
                pos = pos + 1;
                if len == 0 {
                    proof {
                        assert(join_name(acc, Seq::<char>::empty()) == acc);
                    }
                    break ;
                }
                let bytes = match self.get_range(pos, len as usize) {
                    Ok(sl) => vstd::slice::slice_to_vec(sl),
                    Err(e) => return Err(e),
                };
                if !first {
                    outstr.push('.');
                }
                let ghost dot: Seq<char> = if first {
                    Seq::<char>::empty()
                } else {
                    seq!['.']
                };
                proof {
                    assert(out0 + acc + dot =~= outstr@);
                }
                let mut i: usize = 0;
                while i < bytes.len()
                    invariant
                        i <= bytes@.len(),
                        outstr@ == out0 + acc + dot + label_chars(bytes@).take(i as int),
                    decreases bytes@.len() - i,
                {
                    let b = bytes[i];
                    let c = fold_label_byte(b);
                    outstr.push(c);
                    proof {
                        assert(label_chars(bytes@).take(i as int + 1) =~= label_chars(
                            bytes@,
                        ).take(i as int).push(fold_char(b)));
                    }
                    i = i + 1;
                }
                proof {
                    let lbl = label_chars(buf0.subrange(p0 as int + 1, p0 as int + 1 + len));
                    assert(label_chars(bytes@).take(bytes@.len() as int) =~= lbl);
                    let new_acc = join_name(acc, lbl);
                    assert(out0 + acc + dot + lbl =~= out0 + new_acc);
                    if qname_from(buf0, (p0 + 1 + len) as nat, jl) is Ok {
                        let p_next = qname_from(buf0, (p0 + 1 + len) as nat, jl)->Ok_0;
                        assert(qname_from(buf0, p0, jl) == Ok::<
                            (Seq<char>, nat),
                            BytePacketBufferError,
                        >((join_name(lbl, p_next.0), p_next.1)));
                        lemma_join_assoc(acc, lbl, p_next.0);
                    }
                    acc = new_acc;
                }
                first = false;
                pos = pos + len as usize;
            }
        }
        // Only a decode that followed no pointer moves the cursor here: after
        // a jump it was pinned just past the first pointer already.
        if !jumped {
            self.seek(pos);
        }
        Ok(())
    }
}

} // verus!

