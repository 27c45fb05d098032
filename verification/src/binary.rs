//! Sequential byte-buffer reader/writer: the wire codec.
//!
//! Every read advances a cursor by the field's fixed width and yields the
//! decoded value; reading past the end of the buffer is a recoverable
//! [`DecodeError::Truncated`], never a crash, so one malformed frame cannot
//! take the session down.  All multi-byte integers are big-endian.  Floats
//! travel as their IEEE 754 bit patterns and are handed out as such; the
//! fixed-point conversion happens in the layers above.  Strings are a
//! big-endian `u16` byte length followed by that many bytes of UTF-8 text;
//! invalid byte sequences fail the decode rather than being substituted.

use vstd::prelude::*;

verus! {

use vstd::utf8::valid_utf8;

/// Why an inbound buffer could not be decoded.
#[derive(Clone, Copy, Debug, PartialEq, Eq, Structural)]
pub enum DecodeError {
    /// Fewer bytes remained than the field required.
    Truncated,
    /// A length-prefixed string held bytes that are not valid UTF-8.
    InvalidText,
    /// The leading discriminant byte matches no known message.
    UnknownPacket(u8),
    /// An entity record inside a census carries an unknown kind tag.
    UnknownEntity(u8),
}

/// Big-endian value of the `n` bytes of `s` starting at `i`.
pub open spec fn be_bytes(s: Seq<u8>, i: int, n: nat) -> int
    decreases n,
{
    if n == 0 {
        0
    } else {
        be_bytes(s, i, (n - 1) as nat) * 256 + s[i + n - 1]
    }
}

/// The small fixed widths the codec uses, written out.
pub proof fn lemma_be_bytes_concrete(s: Seq<u8>, i: int)
    ensures
        be_bytes(s, i, 0) == 0,
        be_bytes(s, i, 1) == s[i],
        be_bytes(s, i, 2) == s[i] * 256 + s[i + 1],
        be_bytes(s, i, 4) == ((s[i] * 256 + s[i + 1]) * 256 + s[i + 2]) * 256 + s[i + 3],
{
    assert(be_bytes(s, i, 0) == 0);
    assert(be_bytes(s, i, 1) == be_bytes(s, i, 0) * 256 + s[i]);
    assert(be_bytes(s, i, 2) == be_bytes(s, i, 1) * 256 + s[i + 1]);
    assert(be_bytes(s, i, 3) == be_bytes(s, i, 2) * 256 + s[i + 2]);
    assert(be_bytes(s, i, 4) == be_bytes(s, i, 3) * 256 + s[i + 3]);
}

/// Two's-complement reading of an unsigned 16-bit wire value.
pub open spec fn as_signed16(v: int) -> int {
    if v >= 0x8000 {
        v - 0x10000
    } else {
        v
    }
}

/// Two's-complement encoding of a signed 16-bit value onto the wire.
pub open spec fn to_unsigned16(v: int) -> int {
    if v < 0 {
        v + 0x10000
    } else {
        v
    }
}

/// The two bytes of an unsigned 16-bit value, big-endian.
pub open spec fn wire_be16(v: int) -> Seq<u8> {
    seq![((v / 256) % 256) as u8, (v % 256) as u8]
}

/// The four bytes of an unsigned 32-bit value, big-endian.
pub open spec fn wire_be32(v: int) -> Seq<u8> {
    seq![
        ((v / 0x100_0000) % 256) as u8,
        ((v / 0x1_0000) % 256) as u8,
        ((v / 256) % 256) as u8,
        (v % 256) as u8,
    ]
}

/// The eight bytes of an unsigned 64-bit value, big-endian.
pub open spec fn wire_be64(v: int) -> Seq<u8> {
    wire_be32(v / 0x1_0000_0000) + wire_be32(v % 0x1_0000_0000)
}

/// The wire form of a string: a big-endian 16-bit byte length, then the
/// bytes themselves.
pub open spec fn wire_utf8(s: Seq<u8>) -> Seq<u8> {
    wire_be16(s.len() as int) + s
}

/// Reading a length-prefixed UTF-8 string at `p`: the string's bytes and
/// the position after them, or the reason the read fails.
pub open spec fn parse_utf8(s: Seq<u8>, p: int) -> Result<(Seq<u8>, int), DecodeError> {
    if p + 2 > s.len() {
        Err(DecodeError::Truncated)
    } else {
        let l = be_bytes(s, p, 2);
        if p + 2 + l > s.len() {
            Err(DecodeError::Truncated)
        } else if !valid_utf8(s.subrange(p + 2, p + 2 + l)) {
            Err(DecodeError::InvalidText)
        } else {
            Ok((s.subrange(p + 2, p + 2 + l), p + 2 + l))
        }
    }
}

/// An owned byte sequence plus a read/write cursor.  Writes append at the
/// end; reads consume from the cursor, which never passes the end.
#[derive(Debug)]
pub struct StreamPeerBuffer {
    pub data: Vec<u8>,
    pub pos: usize,
}

impl StreamPeerBuffer {
    /// The cursor never exceeds the buffer length.
    pub open spec fn wf(self) -> bool {
        self.pos <= self.data@.len()
    }

    /// An empty buffer ready for writing.
    pub fn new() -> (r: StreamPeerBuffer)
        ensures
            r.data@ =~= Seq::<u8>::empty(),
            r.pos == 0,
            r.wf(),
    {
        StreamPeerBuffer { data: Vec::new(), pos: 0 }
    }

    /// Adopt a received byte buffer and rewind the cursor for reading.
    pub fn set_data_array(&mut self, data: Vec<u8>)
        ensures
            final(self).data@ == data@,
            final(self).pos == 0,
            final(self).wf(),
    {
        self.data = data;
        self.pos = 0;
    }

    /// Bytes still unread.
    pub fn remaining(&self) -> (r: usize)
        requires
            self.wf(),
        ensures
            r == self.data@.len() - self.pos,
    {
        self.data.len() - self.pos
    }

    /// Read one unsigned byte.
    pub fn get_u8(&mut self) -> (r: Result<u8, DecodeError>)
        requires
            old(self).wf(),
        ensures
            final(self).wf(),
            ({
                let s = old(self).data@;
                let p = old(self).pos as int;
                if p + 1 <= s.len() {
                    &&& (r matches Ok(v) && v as int == be_bytes(s, p, 1))
                    &&& final(self).data@ == s
                    &&& final(self).pos == p + 1
                } else {
                    &&& r == Result::<u8, DecodeError>::Err(DecodeError::Truncated)
                    &&& *final(self) == *old(self)
                }
            }),
    {
        if self.data.len() - self.pos >= 1 {
            let b = self.data[self.pos];
            proof {
                lemma_be_bytes_concrete(self.data@, self.pos as int);
            }
            self.pos = self.pos + 1;
            Ok(b)
        } else {
            Err(DecodeError::Truncated)
        }
    }

    /// Read an unsigned big-endian 16-bit integer.
    pub fn get_u16(&mut self) -> (r: Result<u16, DecodeError>)
        requires
            old(self).wf(),
        ensures
            final(self).wf(),
            ({
                let s = old(self).data@;
                let p = old(self).pos as int;
                if p + 2 <= s.len() {
                    &&& (r matches Ok(v) && v as int == be_bytes(s, p, 2))
                    &&& final(self).data@ == s
                    &&& final(self).pos == p + 2
                } else {
                    &&& r == Result::<u16, DecodeError>::Err(DecodeError::Truncated)
                    &&& *final(self) == *old(self)
                }
            }),
    {
        if self.data.len() - self.pos >= 2 {
            let b0 = self.data[self.pos];
            let b1 = self.data[self.pos + 1];
            proof {
                lemma_be_bytes_concrete(self.data@, self.pos as int);
            }
            self.pos = self.pos + 2;
            Ok((b0 as u16) * 256 + (b1 as u16))
        } else {
            Err(DecodeError::Truncated)
        }
    }

    /// Read a signed big-endian 16-bit integer.
    pub fn get_16(&mut self) -> (r: Result<i16, DecodeError>)
        requires
            old(self).wf(),
        ensures
            final(self).wf(),
            ({
                let s = old(self).data@;
                let p = old(self).pos as int;
                if p + 2 <= s.len() {
                    &&& (r matches Ok(v) && v as int == as_signed16(be_bytes(s, p, 2)))
                    &&& final(self).data@ == s
                    &&& final(self).pos == p + 2
                } else {
                    &&& r == Result::<i16, DecodeError>::Err(DecodeError::Truncated)
                    &&& *final(self) == *old(self)
                }
            }),
    {
        match self.get_u16() {
            Ok(v) => {
                if v >= 0x8000 {
                    let m: i32 = 0x10000 - v as i32;
                    Ok((-m) as i16)
                } else {
                    Ok(v as i16)
                }
            },
            Err(e) => Err(e),
        }
    }

    /// Read an unsigned big-endian 32-bit integer.
    pub fn get_u32(&mut self) -> (r: Result<u32, DecodeError>)
        requires
            old(self).wf(),
        ensures
            final(self).wf(),
            ({
                let s = old(self).data@;
                let p = old(self).pos as int;
                if p + 4 <= s.len() {
                    &&& (r matches Ok(v) && v as int == be_bytes(s, p, 4))
                    &&& final(self).data@ == s
                    &&& final(self).pos == p + 4
                } else {
                    &&& r == Result::<u32, DecodeError>::Err(DecodeError::Truncated)
                    &&& *final(self) == *old(self)
                }
            }),
    {
        if self.data.len() - self.pos >= 4 {
            let b0 = self.data[self.pos];
            let b1 = self.data[self.pos + 1];
            let b2 = self.data[self.pos + 2];
            let b3 = self.data[self.pos + 3];
            proof {
                lemma_be_bytes_concrete(self.data@, self.pos as int);
            }
            self.pos = self.pos + 4;
            Ok((((b0 as u32) * 256 + (b1 as u32)) * 256 + (b2 as u32)) * 256 + (b3 as u32))
        } else {
            Err(DecodeError::Truncated)
        }
    }

    /// Read the bit pattern of a big-endian 32-bit float.
    pub fn get_f32_bits(&mut self) -> (r: Result<u32, DecodeError>)
        requires
            old(self).wf(),
        ensures
            final(self).wf(),
            ({
                let s = old(self).data@;
                let p = old(self).pos as int;
                if p + 4 <= s.len() {
                    &&& (r matches Ok(v) && v as int == be_bytes(s, p, 4))
                    &&& final(self).data@ == s
                    &&& final(self).pos == p + 4
                } else {
                    &&& r == Result::<u32, DecodeError>::Err(DecodeError::Truncated)
                    &&& *final(self) == *old(self)
                }
            }),
    {
        self.get_u32()
    }

    /// Read the bit pattern of a big-endian 64-bit float.
    pub fn get_f64_bits(&mut self) -> (r: Result<u64, DecodeError>)
        requires
            old(self).wf(),
        ensures
            final(self).wf(),
            ({
                let s = old(self).data@;
                let p = old(self).pos as int;
                if p + 8 <= s.len() {
                    &&& (r matches Ok(v) && v as int == be_bytes(s, p, 8))
                    &&& final(self).data@ == s
                    &&& final(self).pos == p + 8
                } else {
                    &&& r == Result::<u64, DecodeError>::Err(DecodeError::Truncated)
                    &&& *final(self) == *old(self)
                }
            }),
    {
        if self.data.len() - self.pos >= 8 {
            let p = self.pos;
            let b0 = self.data[p];
            let b1 = self.data[p + 1];
            let b2 = self.data[p + 2];
            let b3 = self.data[p + 3];
            let b4 = self.data[p + 4];
            let b5 = self.data[p + 5];
            let b6 = self.data[p + 6];
            let b7 = self.data[p + 7];
            let acc: u64 = (((((((b0 as u64) * 256 + (b1 as u64)) * 256 + (b2 as u64)) * 256 + (b3
                as u64)) * 256 + (b4 as u64)) * 256 + (b5 as u64)) * 256 + (b6 as u64)) * 256 + (b7
                as u64);
            proof {
                let sq = self.data@;
                let pi = p as int;
                lemma_be_bytes_concrete(sq, pi);
                assert(be_bytes(sq, pi, 5) == be_bytes(sq, pi, 4) * 256 + sq[pi + 4]);
                assert(be_bytes(sq, pi, 6) == be_bytes(sq, pi, 5) * 256 + sq[pi + 5]);
                assert(be_bytes(sq, pi, 7) == be_bytes(sq, pi, 6) * 256 + sq[pi + 6]);
                assert(be_bytes(sq, pi, 8) == be_bytes(sq, pi, 7) * 256 + sq[pi + 7]);
            }
            self.pos = self.pos + 8;
            Ok(acc)
        } else {
            Err(DecodeError::Truncated)
        }
    }

    /// Read a length-prefixed UTF-8 string as its raw bytes, validating the
    /// encoding.  On any failure the buffer is left untouched.
    pub fn get_utf8(&mut self) -> (r: Result<Vec<u8>, DecodeError>)
        requires
            old(self).wf(),
        ensures
            final(self).wf(),
            ({
                match parse_utf8(old(self).data@, old(self).pos as int) {
                    Ok((txt, p2)) => {
                        &&& (r matches Ok(v) && v@ == txt)
                        &&& final(self).data@ == old(self).data@
                        &&& final(self).pos == p2
                    },
                    Err(e) => {
                        &&& r == Result::<Vec<u8>, DecodeError>::Err(e)
                        &&& *final(self) == *old(self)
                    },
                }
            }),
    {
        if self.data.len() - self.pos < 2 {
            return Err(DecodeError::Truncated);
        }
        let b0 = self.data[self.pos];
        let b1 = self.data[self.pos + 1];
        proof {
            lemma_be_bytes_concrete(self.data@, self.pos as int);
        }
        let l: usize = (b0 as usize) * 256 + (b1 as usize);
        if self.data.len() - self.pos - 2 < l {
            return Err(DecodeError::Truncated);
        }
        let start: usize = self.pos + 2;
        let dlen: usize = self.data.len();
        let mut out: Vec<u8> = Vec::new();
        let mut j: usize = 0;
        while j < l
            invariant
                j <= l,
                start + l <= dlen,
                dlen == self.data@.len(),
                self.data@ == old(self).data@,
                self.pos == old(self).pos,
                out@ =~= self.data@.subrange(start as int, start as int + j as int),
            decreases l - j,
        {
            out.push(self.data[start + j]);
            j = j + 1;
        }
        if !validate_utf8(&out) {
            return Err(DecodeError::InvalidText);
        }
        self.pos = start + l;
        Ok(out)
    }

    /// Append one unsigned byte.
    pub fn put_u8(&mut self, v: u8)
        ensures
            final(self).data@ == old(self).data@ + seq![v],
            final(self).pos == old(self).pos,
    {
        self.data.push(v);
    }

    /// Append an unsigned big-endian 16-bit integer.
    pub fn put_u16(&mut self, v: u16)
        ensures
            final(self).data@ == old(self).data@ + wire_be16(v as int),
            final(self).data@.len() == old(self).data@.len() + 2,
            final(self).data@.subrange(0, old(self).data@.len() as int) == old(self).data@,
            be_bytes(final(self).data@, old(self).data@.len() as int, 2) == v as int,
            final(self).pos == old(self).pos,
    {
        proof {
            vstd::arithmetic::div_mod::lemma_fundamental_div_mod(v as int, 256);
            vstd::arithmetic::div_mod::lemma_small_mod((v as int / 256) as nat, 256);
        }
        self.data.push((v / 256) as u8);
        self.data.push((v % 256) as u8);
        proof {
            let s = self.data@;
            let base = old(self).data@.len() as int;
            assert(s.subrange(0, base) =~= old(self).data@);
            lemma_be_bytes_concrete(s, base);
            assert(s =~= old(self).data@ + wire_be16(v as int));
        }
    }

    /// Append a signed big-endian 16-bit integer in two's complement.
    pub fn put_16(&mut self, v: i16)
        ensures
            final(self).data@ == old(self).data@ + wire_be16(to_unsigned16(v as int)),
            final(self).data@.len() == old(self).data@.len() + 2,
            final(self).data@.subrange(0, old(self).data@.len() as int) == old(self).data@,
            be_bytes(final(self).data@, old(self).data@.len() as int, 2) == to_unsigned16(v as int),
            final(self).pos == old(self).pos,
    {
        let u: u16 = if v >= 0 {
            v as u16
        } else {
            let m: i32 = 0x10000 + v as i32;
            m as u16
        };
        self.put_u16(u);
    }

    /// Append an unsigned big-endian 32-bit integer.
    pub fn put_u32(&mut self, v: u32)
        ensures
            final(self).data@ == old(self).data@ + wire_be32(v as int),
            final(self).data@.len() == old(self).data@.len() + 4,
            final(self).data@.subrange(0, old(self).data@.len() as int) == old(self).data@,
            be_bytes(final(self).data@, old(self).data@.len() as int, 4) == v as int,
            final(self).pos == old(self).pos,
    {
        proof {
            vstd::arithmetic::div_mod::lemma_fundamental_div_mod(v as int, 256);
            vstd::arithmetic::div_mod::lemma_fundamental_div_mod(v as int / 256, 256);
            vstd::arithmetic::div_mod::lemma_fundamental_div_mod(v as int / 256 / 256, 256);
        }
        self.data.push(((v / 0x100_0000) % 256) as u8);
        self.data.push(((v / 0x1_0000) % 256) as u8);
        self.data.push(((v / 256) % 256) as u8);
        self.data.push((v % 256) as u8);
        proof {
            let s = self.data@;
            let base = old(self).data@.len() as int;
            assert(s.subrange(0, base) =~= old(self).data@);
            lemma_be_bytes_concrete(s, base);
            assert(be_bytes(s, base, 3) == be_bytes(s, base, 2) * 256 + s[base + 2]);
            assert(v as int / 0x100_0000 == v as int / 256 / 256 / 256) by {
                vstd::arithmetic::div_mod::lemma_div_denominator(v as int, 256, 256);
                vstd::arithmetic::div_mod::lemma_div_denominator(v as int, 0x1_0000, 256);
            }
            assert(v as int / 0x1_0000 == v as int / 256 / 256) by {
                vstd::arithmetic::div_mod::lemma_div_denominator(v as int, 256, 256);
            }
            assert(v as int / 0x100_0000 < 256);
            vstd::arithmetic::div_mod::lemma_small_mod((v as int / 0x100_0000) as nat, 256);
            assert(s =~= old(self).data@ + wire_be32(v as int));
        }
    }

    /// Append the bit pattern of a big-endian 32-bit float.
    pub fn put_f32_bits(&mut self, v: u32)
        ensures
            final(self).data@ == old(self).data@ + wire_be32(v as int),
            final(self).data@.len() == old(self).data@.len() + 4,
            final(self).data@.subrange(0, old(self).data@.len() as int) == old(self).data@,
            be_bytes(final(self).data@, old(self).data@.len() as int, 4) == v as int,
            final(self).pos == old(self).pos,
    {
        self.put_u32(v);
    }

    /// Append the bit pattern of a big-endian 64-bit float.
    pub fn put_f64_bits(&mut self, v: u64)
        ensures
            final(self).data@ == old(self).data@ + wire_be64(v as int),
            final(self).data@.len() == old(self).data@.len() + 8,
            final(self).data@.subrange(0, old(self).data@.len() as int) == old(self).data@,
            be_bytes(final(self).data@, old(self).data@.len() as int, 8) == v as int,
            final(self).pos == old(self).pos,
    {
        let hi: u32 = (v / 0x1_0000_0000) as u32;
        let lo: u32 = (v % 0x1_0000_0000) as u32;
        proof {
            vstd::arithmetic::div_mod::lemma_mod_division_less_than_divisor(
                v as int,
                0x1_0000_0000,
            );
            vstd::arithmetic::div_mod::lemma_div_pos_is_pos(v as int, 0x1_0000_0000);
        }
        proof {
            vstd::arithmetic::div_mod::lemma_fundamental_div_mod(v as int, 0x1_0000_0000);
        }
        self.put_u32(hi);
        let ghost mid_state = self.data@;
        let ghost mid_base = old(self).data@.len() as int;
        proof {
            lemma_be_bytes_concrete(mid_state, mid_base);
        }
        self.put_u32(lo);
        proof {
            lemma_be_bytes_prefix(mid_state, self.data@, mid_base, 4);
        }
        proof {
            let s = self.data@;
            let ghost mid = old(self).data@ + seq![
                ((hi / 0x100_0000) % 256) as u8,
                ((hi / 0x1_0000) % 256) as u8,
                ((hi / 256) % 256) as u8,
                (hi % 256) as u8,
            ];
            let base = old(self).data@.len() as int;
            assert(s.subrange(0, base) =~= old(self).data@);
            lemma_be_bytes_split(s, base, 4, 8);
            lemma_pow256_values();
            assert(be_bytes(s, base, 4) * 0x1_0000_0000 + be_bytes(s, base + 4, 4) == v as int)
                by (nonlinear_arith)
                requires
                    be_bytes(s, base, 4) == v as int / 0x1_0000_0000,
                    be_bytes(s, base + 4, 4) == v as int % 0x1_0000_0000,
                    v as int == 0x1_0000_0000 * (v as int / 0x1_0000_0000) + v as int
                        % 0x1_0000_0000;
            assert(s =~= old(self).data@ + wire_be64(v as int));
        }
    }

    /// Append a length-prefixed UTF-8 string given as raw bytes.
    pub fn put_utf8(&mut self, s: &Vec<u8>)
        requires
            s@.len() <= 0xffff,
            valid_utf8(s@),
        ensures
            final(self).data@ == old(self).data@ + wire_utf8(s@),
            final(self).data@.len() == old(self).data@.len() + 2 + s@.len(),
            final(self).data@.subrange(0, old(self).data@.len() as int) == old(self).data@,
            be_bytes(final(self).data@, old(self).data@.len() as int, 2) == s@.len(),
            final(self).data@.subrange(
                old(self).data@.len() + 2int,
                old(self).data@.len() + 2int + s@.len(),
            ) == s@,
            final(self).pos == old(self).pos,
    {
        let ghost base = self.data@.len() as int;
        self.put_u16(s.len() as u16);
        let ghost mid = self.data@;
        let mut j: usize = 0;
        while j < s.len()
            invariant
                j <= s@.len(),
                self.data@ =~= mid + s@.subrange(0, j as int),
                self.pos == old(self).pos,
            decreases s@.len() - j,
        {
            self.data.push(s[j]);
            j = j + 1;
        }
        proof {
            assert(self.data@.subrange(0, base) =~= old(self).data@);
            assert(self.data@.subrange(base + 2, base + 2 + s@.len()) =~= s@);
            lemma_be_bytes_prefix(mid, self.data@, base, 2);
            assert(self.data@ =~= old(self).data@ + wire_utf8(s@));
        }
    }
}

/// A big-endian word is bounded by 256 to its width.
pub proof fn lemma_be_bytes_bound(s: Seq<u8>, i: int, n: nat)
    requires
        0 <= i,
        i + n <= s.len(),
    ensures
        0 <= be_bytes(s, i, n) < vstd::arithmetic::power::pow(256, n),
    decreases n,
{
    reveal(vstd::arithmetic::power::pow);
    vstd::arithmetic::power::lemma_pow_positive(256, n);
    if n == 0 {
    } else {
        lemma_be_bytes_bound(s, i, (n - 1) as nat);
        let prev = be_bytes(s, i, (n - 1) as nat);
        let p = vstd::arithmetic::power::pow(256, (n - 1) as nat);
        let last = s[i + n - 1] as int;
        assert(vstd::arithmetic::power::pow(256, n) == 256 * p);
        assert(prev * 256 + last < 256 * p) by (nonlinear_arith)
            requires 0 <= prev < p && 0 <= last < 256;
    }
}

/// Reading a word does not depend on bytes past its end: the word read out
/// of a longer buffer that extends the shorter one is the same.
pub proof fn lemma_be_bytes_prefix(s1: Seq<u8>, s2: Seq<u8>, i: int, n: nat)
    requires
        0 <= i,
        i + n <= s1.len(),
        s1.len() <= s2.len(),
        forall|k: int| 0 <= k < s1.len() ==> s1[k] == s2[k],
    ensures
        be_bytes(s1, i, n) == be_bytes(s2, i, n),
    decreases n,
{
    if n > 0 {
        lemma_be_bytes_prefix(s1, s2, i, (n - 1) as nat);
    }
}

/// Splitting a word: the first `m` bytes are the high part of the `n`-byte
/// word starting at the same place.
pub proof fn lemma_be_bytes_split(s: Seq<u8>, i: int, m: nat, n: nat)
    requires
        0 <= i,
        m <= n,
        i + n <= s.len(),
    ensures
        be_bytes(s, i, n) == be_bytes(s, i, m) * vstd::arithmetic::power::pow(
            256,
            (n - m) as nat,
        ) + be_bytes(s, i + m, (n - m) as nat),
    decreases n - m,
{
    reveal(vstd::arithmetic::power::pow);
    if m == n {
        assert(vstd::arithmetic::power::pow(256, 0) == 1);
        assert(be_bytes(s, i + m, 0) == 0);
    } else {
        lemma_be_bytes_split(s, i, m, (n - 1) as nat);
        let k = (n - 1 - m) as nat;
        let p = vstd::arithmetic::power::pow(256, k);
        assert((n - m) as nat == k + 1);
        assert(vstd::arithmetic::power::pow(256, k + 1) == 256 * p);
        assert(be_bytes(s, i, n) == be_bytes(s, i, (n - 1) as nat) * 256 + s[i + n - 1]);
        assert(be_bytes(s, i + m, k + 1) == be_bytes(s, i + m, k) * 256 + s[i + m + k]);
        assert(i + m + k == i + n - 1);
        let a = be_bytes(s, i, m);
        let b = be_bytes(s, i + m, k);
        let last = s[i + n - 1] as int;
        assert((a * p + b) * 256 + last == a * (256 * p) + (b * 256 + last)) by (nonlinear_arith);
    }
}

/// The powers of 256 the codec cares about.
pub proof fn lemma_pow256_values()
    ensures
        vstd::arithmetic::power::pow(256, 0) == 1,
        vstd::arithmetic::power::pow(256, 1) == 0x100,
        vstd::arithmetic::power::pow(256, 2) == 0x1_0000,
        vstd::arithmetic::power::pow(256, 3) == 0x100_0000,
        vstd::arithmetic::power::pow(256, 4) == 0x1_0000_0000,
{
    reveal(vstd::arithmetic::power::pow);
    assert(vstd::arithmetic::power::pow(256, 0) == 1);
    assert(vstd::arithmetic::power::pow(256, 1) == 256 * vstd::arithmetic::power::pow(256, 0));
    assert(vstd::arithmetic::power::pow(256, 2) == 256 * vstd::arithmetic::power::pow(256, 1));
    assert(vstd::arithmetic::power::pow(256, 3) == 256 * vstd::arithmetic::power::pow(256, 2));
    assert(vstd::arithmetic::power::pow(256, 4) == 256 * vstd::arithmetic::power::pow(256, 3));
}

/// Check that a byte vector is valid UTF-8, against the reference
/// definition in `vstd::utf8`.
pub fn validate_utf8(v: &Vec<u8>) -> (b: bool)
    ensures
        b == valid_utf8(v@),
{
    let n = v.len();
    let mut i: usize = 0;
    proof {
        assert(v@.subrange(0, n as int) =~= v@);
    }
    while i < n
        invariant
            i <= n,
            n == v@.len(),
            valid_utf8(v@) == valid_utf8(v@.subrange(i as int, n as int)),
        decreases n - i,
    {
        let ghost suf = v@.subrange(i as int, n as int);
        let b1 = v[i];
        let width: usize = if b1 <= 0x7f {
            1
        } else if 0xc0 <= b1 && b1 <= 0xdf {
            2
        } else if 0xe0 <= b1 && b1 <= 0xef {
            3
        } else if 0xf0 <= b1 && b1 <= 0xf7 {
            4
        } else {
            return false;
        };
        if n - i < width {
            return false;
        }
        if width >= 2 {
            let c = v[i + 1];
            if !(0x80 <= c && c <= 0xbf) {
                return false;
            }
        }
        if width >= 3 {
            let c = v[i + 2];
            if !(0x80 <= c && c <= 0xbf) {
                return false;
            }
        }
        if width >= 4 {
            let c = v[i + 3];
            if !(0x80 <= c && c <= 0xbf) {
                return false;
            }
        }
        let cp: u32 = if width == 1 {
            (b1 & 0x7f) as u32
        } else if width == 2 {
            (((b1 & 0x1f) as u32) << 6u32) | ((v[i + 1] & 0x3f) as u32)
        } else if width == 3 {
            (((b1 & 0x0f) as u32) << 12u32) | (((v[i + 1] & 0x3f) as u32) << 6u32) | ((v[i + 2]
                & 0x3f) as u32)
        } else {
            (((b1 & 0x07) as u32) << 18u32) | (((v[i + 1] & 0x3f) as u32) << 12u32) | (((v[i + 2]
                & 0x3f) as u32) << 6u32) | ((v[i + 3] & 0x3f) as u32)
        };
        proof {
            assert(suf.len() == n - i);
            assert forall|k: int| 0 <= k < suf.len() implies suf[k] == v@[i + k] by {}
            assert(vstd::utf8::decode_first_codepoint(suf) == cp);
            assert(vstd::utf8::length_of_first_codepoint(suf) == width);
        }
        if width == 2 && cp < 0x80 {
            return false;
        }
        if width == 3 && cp < 0x800 {
            return false;
        }
        if width == 4 && !(0x10000 <= cp && cp <= 0x10ffff) {
            return false;
        }
        if 0xd800 <= cp && cp <= 0xdfff {
            return false;
        }
        proof {
            assert(vstd::utf8::valid_first_scalar(suf));
            assert(vstd::utf8::pop_first_scalar(suf) =~= v@.subrange(
                i + width as int,
                n as int,
            ));
        }
        i = i + width;
    }
    proof {
        assert(v@.subrange(n as int, n as int).len() == 0);
    }
    true
}

} // verus!
