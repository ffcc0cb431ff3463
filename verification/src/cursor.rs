//! A seekable, endianness-aware byte reader over an in-memory buffer: typed
//! little-endian integer reads, raw byte spans, single bits and bit-groups
//! (most-significant bit first), and absolute position control. Every read
//! beyond the buffer end fails with `UnexpectedEof` and is terminal for the
//! decode.

use vstd::prelude::*;

use crate::ParseError;

verus! {

/// The value of the two bytes at `p` read as a little-endian 16-bit integer.
pub open spec fn le_u16(d: Seq<u8>, p: int) -> u16 {
    (d[p] + d[p + 1] * 0x100) as u16
}

/// The value of the four bytes at `p` read as a little-endian 32-bit integer.
pub open spec fn le_u32(d: Seq<u8>, p: int) -> u32 {
    (d[p] + d[p + 1] * 0x100 + d[p + 2] * 0x10000 + d[p + 3] * 0x1000000) as u32
}

/// The value of the eight bytes at `p` read as a little-endian 64-bit integer.
pub open spec fn le_u64(d: Seq<u8>, p: int) -> u64 {
    (le_u32(d, p) + le_u32(d, p + 4) * 0x100000000) as u64
}

/// The index of the first zero byte at or after `p`, if any.
pub open spec fn zscan(d: Seq<u8>, p: int) -> Option<int>
    decreases d.len() - p,
{
    if p < 0 || p >= d.len() {
        None
    } else if d[p] == 0 {
        Some(p)
    } else {
        zscan(d, p + 1)
    }
}

/// `zscan` finds the first zero byte: everything before it is non-zero, and
/// when it finds none the whole tail is non-zero.
pub proof fn lemma_zscan(d: Seq<u8>, p: int)
    requires
        0 <= p,
    ensures
        match zscan(d, p) {
            Some(z) => p <= z < d.len() && d[z] == 0 && (forall|i: int| p <= i < z ==> d[i] != 0),
            None => forall|i: int| p <= i < d.len() ==> d[i] != 0,
        },
    decreases d.len() - p,
{
    if p < d.len() && d[p] != 0 {
        lemma_zscan(d, p + 1);
    }
}

/// Truncating a buffer does not move the first zero byte: a scan over the
/// prefix finds the same terminator as long as it lies inside the prefix,
/// and finds none once it is cut off.
pub proof fn lemma_zscan_take(d: Seq<u8>, p: int, k: int)
    requires
        0 <= p,
        0 <= k <= d.len(),
    ensures
        match zscan(d, p) {
            Some(z) => if z < k {
                zscan(d.take(k), p) == Some(z)
            } else {
                zscan(d.take(k), p) is None
            },
            None => zscan(d.take(k), p) is None,
        },
    decreases k - p,
{
    if p < k {
        assert(d.take(k)[p] == d[p]);
        if d[p] != 0 {
            lemma_zscan_take(d, p + 1, k);
        }
    } else {
        lemma_zscan(d, p);
    }
}

/// Bit `k` of `b`, counting the most significant bit as bit 0.
pub open spec fn bit_at(b: u8, k: int) -> bool {
    b & (1u8 << ((7 - k) as u8)) != 0
}

/// Whether `n` bit reads starting at byte `pos`, bit offset `bit`, all fall
/// inside the buffer.
pub open spec fn bits_fit(d: Seq<u8>, pos: int, bit: int, n: int) -> bool {
    n <= 0 || pos + (bit + n - 1) / 8 < d.len()
}

/// The byte position after reading `n` bits from byte `pos`, bit offset `bit`.
pub open spec fn bits_end_pos(pos: int, bit: int, n: int) -> int {
    pos + (bit + n) / 8
}

/// The bit offset after reading `n` bits from bit offset `bit`.
pub open spec fn bits_end_bit(bit: int, n: int) -> int {
    (bit + n) % 8
}

/// The value of the `n` bits starting at byte `pos`, bit offset `bit`, read
/// most-significant bit first: the first bit read lands in the highest of the
/// `n` result bits.
pub open spec fn bits_val(d: Seq<u8>, pos: int, bit: int, n: int) -> u64
    decreases n,
{
    if n <= 0 {
        0
    } else {
        let b: u64 = if bit_at(d[pos], bit) {
            1
        } else {
            0
        };
        let rest: u64 = if bit == 7 {
            bits_val(d, pos + 1, 0, n - 1)
        } else {
            bits_val(d, pos, bit + 1, n - 1)
        };
        (b << ((n - 1) as u64)) | rest
    }
}

/// A forward-moving read cursor over an in-memory byte buffer, with a byte
/// position and a bit offset inside the current byte for bit-group reads.
pub struct Cursor {
    data: Vec<u8>,
    pos: usize,
    bit: usize,
}

impl Cursor {
    /// The underlying bytes.
    pub closed spec fn data(&self) -> Seq<u8> {
        self.data@
    }

    /// The current byte position.
    pub closed spec fn pos(&self) -> int {
        self.pos as int
    }

    /// The current bit offset within the byte at `pos`, 0 when byte-aligned.
    pub closed spec fn bit(&self) -> int {
        self.bit as int
    }

    /// The cursor never points past the buffer, and a pending bit read always
    /// has its byte in range.
    pub open spec fn wf(&self) -> bool {
        &&& 0 <= self.pos() <= self.data().len()
        &&& 0 <= self.bit() < 8
        &&& self.bit() > 0 ==> self.pos() < self.data().len()
    }

    pub fn new(data: Vec<u8>) -> (c: Cursor)
        ensures
            c.wf(),
            c.data() == data@,
            c.pos() == 0,
            c.bit() == 0,
    {
        Cursor { data, pos: 0, bit: 0 }
    }

    pub fn len(&self) -> (n: usize)
        ensures
            n == self.data().len(),
    {
        self.data.len()
    }

    pub fn get_pos(&self) -> (p: usize)
        ensures
            p == self.pos(),
    {
        self.pos
    }

    /// Absolute seek, clamped to the buffer length.
    pub fn set_pos(&mut self, p: usize)
        requires
            old(self).wf(),
            old(self).bit() == 0,
        ensures
            final(self).wf(),
            final(self).data() == old(self).data(),
            final(self).bit() == 0,
            final(self).pos() == if p <= old(self).data().len() {
                p as int
            } else {
                old(self).data().len() as int
            },
    {
        let n = self.data.len();
        self.pos = if p < n {
            p
        } else {
            n
        };
    }

    /// Relative seek forward, clamped to the buffer length.
    pub fn skip(&mut self, n: usize)
        requires
            old(self).wf(),
            old(self).bit() == 0,
        ensures
            final(self).wf(),
            final(self).data() == old(self).data(),
            final(self).bit() == 0,
            final(self).pos() == if old(self).pos() + n <= old(self).data().len() {
                old(self).pos() + n
            } else {
                old(self).data().len() as int
            },
    {
        let rem = self.data.len() - self.pos;
        if n >= rem {
            self.pos = self.data.len();
        } else {
            self.pos = self.pos + n;
        }
    }

    pub fn read_u8(&mut self) -> (r: Result<u8, ParseError>)
        requires
            old(self).wf(),
            old(self).bit() == 0,
        ensures
            final(self).wf(),
            final(self).data() == old(self).data(),
            final(self).bit() == 0,
            old(self).pos() < old(self).data().len() ==> r == Ok::<u8, ParseError>(
                old(self).data()[old(self).pos()],
            ) && final(self).pos() == old(self).pos() + 1,
            old(self).pos() >= old(self).data().len() ==> r == Err::<u8, ParseError>(
                ParseError::UnexpectedEof,
            ) && final(self).pos() == old(self).pos(),
    {
        if self.pos >= self.data.len() {
            return Err(ParseError::UnexpectedEof);
        }
        let b = self.data[self.pos];
        self.pos = self.pos + 1;
        Ok(b)
    }

    pub fn read_i8(&mut self) -> (r: Result<i8, ParseError>)
        requires
            old(self).wf(),
            old(self).bit() == 0,
        ensures
            final(self).wf(),
            final(self).data() == old(self).data(),
            final(self).bit() == 0,
            old(self).pos() < old(self).data().len() ==> r == Ok::<i8, ParseError>(
                old(self).data()[old(self).pos()] as i8,
            ) && final(self).pos() == old(self).pos() + 1,
            old(self).pos() >= old(self).data().len() ==> r == Err::<i8, ParseError>(
                ParseError::UnexpectedEof,
            ) && final(self).pos() == old(self).pos(),
    {
        match self.read_u8() {
            Ok(b) => Ok(b as i8),
            Err(e) => Err(e),
        }
    }

    pub fn read_u16(&mut self) -> (r: Result<u16, ParseError>)
        requires
            old(self).wf(),
            old(self).bit() == 0,
        ensures
            final(self).wf(),
            final(self).data() == old(self).data(),
            final(self).bit() == 0,
            old(self).pos() + 2 <= old(self).data().len() ==> r == Ok::<u16, ParseError>(
                le_u16(old(self).data(), old(self).pos()),
            ) && final(self).pos() == old(self).pos() + 2,
            old(self).pos() + 2 > old(self).data().len() ==> r == Err::<u16, ParseError>(
                ParseError::UnexpectedEof,
            ) && final(self).pos() == old(self).pos(),
    {
        if self.data.len() - self.pos < 2 {
            return Err(ParseError::UnexpectedEof);
        }
        let b0 = self.data[self.pos];
        let b1 = self.data[self.pos + 1];
        self.pos = self.pos + 2;
        Ok((b0 as u16) + (b1 as u16) * 0x100)
    }

    pub fn read_i16(&mut self) -> (r: Result<i16, ParseError>)
        requires
            old(self).wf(),
            old(self).bit() == 0,
        ensures
            final(self).wf(),
            final(self).data() == old(self).data(),
            final(self).bit() == 0,
            old(self).pos() + 2 <= old(self).data().len() ==> r == Ok::<i16, ParseError>(
                le_u16(old(self).data(), old(self).pos()) as i16,
            ) && final(self).pos() == old(self).pos() + 2,
            old(self).pos() + 2 > old(self).data().len() ==> r == Err::<i16, ParseError>(
                ParseError::UnexpectedEof,
            ) && final(self).pos() == old(self).pos(),
    {
        match self.read_u16() {
            Ok(v) => Ok(v as i16),
            Err(e) => Err(e),
        }
    }

    pub fn read_u32(&mut self) -> (r: Result<u32, ParseError>)
        requires
            old(self).wf(),
            old(self).bit() == 0,
        ensures
            final(self).wf(),
            final(self).data() == old(self).data(),
            final(self).bit() == 0,
            old(self).pos() + 4 <= old(self).data().len() ==> r == Ok::<u32, ParseError>(
                le_u32(old(self).data(), old(self).pos()),
            ) && final(self).pos() == old(self).pos() + 4,
            old(self).pos() + 4 > old(self).data().len() ==> r == Err::<u32, ParseError>(
                ParseError::UnexpectedEof,
            ) && final(self).pos() == old(self).pos(),
    {
        if self.data.len() - self.pos < 4 {
            return Err(ParseError::UnexpectedEof);
        }
        let b0 = self.data[self.pos];
        let b1 = self.data[self.pos + 1];
        let b2 = self.data[self.pos + 2];
        let b3 = self.data[self.pos + 3];
        self.pos = self.pos + 4;
        Ok((b0 as u32) + (b1 as u32) * 0x100 + (b2 as u32) * 0x10000 + (b3 as u32) * 0x1000000)
    }

    pub fn read_i32(&mut self) -> (r: Result<i32, ParseError>)
        requires
            old(self).wf(),
            old(self).bit() == 0,
        ensures
            final(self).wf(),
            final(self).data() == old(self).data(),
            final(self).bit() == 0,
            old(self).pos() + 4 <= old(self).data().len() ==> r == Ok::<i32, ParseError>(
                le_u32(old(self).data(), old(self).pos()) as i32,
            ) && final(self).pos() == old(self).pos() + 4,
            old(self).pos() + 4 > old(self).data().len() ==> r == Err::<i32, ParseError>(
                ParseError::UnexpectedEof,
            ) && final(self).pos() == old(self).pos(),
    {
        match self.read_u32() {
            Ok(v) => Ok(v as i32),
            Err(e) => Err(e),
        }
    }

    pub fn read_u64(&mut self) -> (r: Result<u64, ParseError>)
        requires
            old(self).wf(),
            old(self).bit() == 0,
        ensures
            final(self).wf(),
            final(self).data() == old(self).data(),
            final(self).bit() == 0,
            old(self).pos() + 8 <= old(self).data().len() ==> r == Ok::<u64, ParseError>(
                le_u64(old(self).data(), old(self).pos()),
            ) && final(self).pos() == old(self).pos() + 8,
            old(self).pos() + 8 > old(self).data().len() ==> r == Err::<u64, ParseError>(
                ParseError::UnexpectedEof,
            ) && final(self).pos() == old(self).pos(),
    {
        if self.data.len() - self.pos < 8 {
            return Err(ParseError::UnexpectedEof);
        }
        let lo = match self.read_u32() {
            Ok(v) => v,
            Err(e) => { return Err(e) },
        };
        let hi = match self.read_u32() {
            Ok(v) => v,
            Err(e) => { return Err(e) },
        };
        Ok((lo as u64) + (hi as u64) * 0x100000000)
    }

    /// A raw span of `size` bytes.
    pub fn read_bytes(&mut self, size: usize) -> (r: Result<Vec<u8>, ParseError>)
        requires
            old(self).wf(),
            old(self).bit() == 0,
        ensures
            final(self).wf(),
            final(self).data() == old(self).data(),
            final(self).bit() == 0,
            old(self).pos() + size <= old(self).data().len() ==> {
                &&& r matches Ok(v)
                &&& v@ == old(self).data().subrange(old(self).pos(), old(self).pos() + size)
                &&& final(self).pos() == old(self).pos() + size
            },
            old(self).pos() + size > old(self).data().len() ==> r == Err::<Vec<u8>, ParseError>(
                ParseError::UnexpectedEof,
            ) && final(self).pos() == old(self).pos(),
    {
        if self.data.len() - self.pos < size {
            return Err(ParseError::UnexpectedEof);
        }
        let mut out: Vec<u8> = Vec::new();
        let mut i: usize = 0;
        while i < size
            invariant
                i <= size,
                self.pos + size <= self.data.len(),
                out@ == self.data@.subrange(self.pos as int, self.pos + i),
            decreases size - i,
        {
            out.push(self.data[self.pos + i]);
            i = i + 1;
            proof {
                assert(out@ =~= self.data@.subrange(self.pos as int, self.pos + i));
            }
        }
        self.pos = self.pos + size;
        Ok(out)
    }

    /// One bit, most-significant bit of the byte first.
    pub fn read_bit(&mut self) -> (r: Result<bool, ParseError>)
        requires
            old(self).wf(),
        ensures
            final(self).wf(),
            final(self).data() == old(self).data(),
            old(self).pos() < old(self).data().len() ==> {
                &&& r == Ok::<bool, ParseError>(
                    bit_at(old(self).data()[old(self).pos()], old(self).bit()),
                )
                &&& final(self).pos() == bits_end_pos(old(self).pos(), old(self).bit(), 1)
                &&& final(self).bit() == bits_end_bit(old(self).bit(), 1)
            },
            old(self).pos() >= old(self).data().len() ==> r == Err::<bool, ParseError>(
                ParseError::UnexpectedEof,
            ) && final(self).pos() == old(self).pos() && final(self).bit() == old(self).bit(),
    {
        if self.pos >= self.data.len() {
            return Err(ParseError::UnexpectedEof);
        }
        let b = self.data[self.pos] & (1u8 << ((7 - self.bit) as u8));
        self.bit = self.bit + 1;
        if self.bit > 7 {
            self.pos = self.pos + 1;
            self.bit = 0;
        }
        Ok(b != 0)
    }

    /// A group of `n` bits read left to right: the first bit read is the most
    /// significant of the result.
    pub fn read_bits(&mut self, n: u8) -> (r: Result<u64, ParseError>)
        requires
            old(self).wf(),
            n <= 64,
        ensures
            final(self).wf(),
            final(self).data() == old(self).data(),
            bits_fit(old(self).data(), old(self).pos(), old(self).bit(), n as int) ==> {
                &&& r == Ok::<u64, ParseError>(
                    bits_val(old(self).data(), old(self).pos(), old(self).bit(), n as int),
                )
                &&& final(self).pos() == bits_end_pos(old(self).pos(), old(self).bit(), n as int)
                &&& final(self).bit() == bits_end_bit(old(self).bit(), n as int)
            },
            !bits_fit(old(self).data(), old(self).pos(), old(self).bit(), n as int) ==> r
                == Err::<u64, ParseError>(ParseError::UnexpectedEof) && final(self).pos()
                == old(self).data().len() && final(self).bit() == 0,
        decreases n,
    {
        if n == 0 {
            Ok(0)
        } else {
            let b = match self.read_bit() {
                Ok(b) => b,
                Err(e) => { return Err(e) },
            };
            let rest = match self.read_bits(n - 1) {
                Ok(v) => v,
                Err(e) => { return Err(e) },
            };
            let hi: u64 = if b {
                1
            } else {
                0
            };
            Ok((hi << ((n - 1) as u64)) | rest)
        }
    }
}

} // verus!
