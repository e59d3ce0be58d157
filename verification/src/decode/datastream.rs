//! The bit stream of a symbol: first as it is read from the cells, then
//! corrected, and read from most significant bit first.

use crate::constants::QUIRC_MAX_PAYLOAD;
use vstd::arithmetic::power2::{lemma2_to64, lemma_pow2_strictly_increases, lemma_pow2_unfold, pow2};
use vstd::prelude::*;

verus! {

/// The codewords of a symbol.
pub struct Datastream {
    /// The codewords as the cells give them, still interleaved.
    pub raw: [u8; QUIRC_MAX_PAYLOAD],
    /// The number of bits that are held: in `raw` while the cells are read,
    /// in `data` once the blocks are corrected.
    pub data_bits: u32,
    /// The position of the next bit to take from `data`.
    pub ptr: u32,
    /// The data words of the corrected blocks, one block after another.
    pub data: [u8; QUIRC_MAX_PAYLOAD],
}

/// Whether bit `pos` of the byte `b` is set, counted from the most
/// significant bit.
pub open spec fn byte_bit(b: u8, pos: u32) -> bool {
    b & (0x80u8 >> pos) != 0
}

/// Whether bit `k` of the stream of bytes `data` is set.
pub open spec fn stream_bit(data: Seq<u8>, k: int) -> bool {
    byte_bit(data[k / 8], (k % 8) as u32)
}

/// The number that the `n` bits from position `ptr` of the stream spell,
/// the first bit being the most significant.
pub open spec fn take_value(data: Seq<u8>, ptr: int, n: int) -> int
    decreases n,
{
    if n <= 0 {
        0
    } else {
        2 * take_value(data, ptr, n - 1) + if stream_bit(data, ptr + n - 1) {
            1int
        } else {
            0int
        }
    }
}

/// The number of bits that a request for `len` bits gets when the stream
/// holds `total` bits and stands at `ptr`: as many as are left.
pub open spec fn taken(total: int, ptr: int, len: int) -> int {
    if total - ptr < len {
        total - ptr
    } else {
        len
    }
}

/// A number of `n` bits is below `2^n`.
pub proof fn lemma_take_value_bound(data: Seq<u8>, ptr: int, n: int)
    requires
        0 <= n,
    ensures
        0 <= take_value(data, ptr, n) < pow2(n as nat),
    decreases n,
{
    if n > 0 {
        lemma_take_value_bound(data, ptr, n - 1);
        lemma_pow2_unfold(n as nat);
    } else {
        lemma2_to64();
    }
}

impl Datastream {
    /// The position is inside the bits that are held, and those fit the room.
    pub open spec fn wf(&self) -> bool {
        self.ptr <= self.data_bits <= 8 * QUIRC_MAX_PAYLOAD
    }

    /// A stream that holds nothing.
    pub fn new() -> (ds: Datastream)
        ensures
            ds.wf(),
            ds.data_bits == 0,
            ds.ptr == 0,
            forall|i: int| 0 <= i < QUIRC_MAX_PAYLOAD ==> ds.raw@[i] == 0 && ds.data@[i] == 0,
    {
        Datastream { raw: [0u8; QUIRC_MAX_PAYLOAD], data_bits: 0, ptr: 0, data: [0u8; QUIRC_MAX_PAYLOAD] }
    }

    /// The number of bits that are left to take.
    pub fn bits_remaining(&self) -> (n: usize)
        requires
            self.wf(),
        ensures
            n == self.data_bits - self.ptr,
    {
        (self.data_bits - self.ptr) as usize
    }

    /// Takes up to `len` bits from the stream and returns the number that
    /// they spell. Fewer are taken only where the stream ends.
    pub fn take_bits(&mut self, len: usize) -> (ret: u32)
        requires
            old(self).wf(),
            len <= 32,
        ensures
            final(self).wf(),
            ret == take_value(
                old(self).data@,
                old(self).ptr as int,
                taken(old(self).data_bits as int, old(self).ptr as int, len as int),
            ),
            final(self).ptr == old(self).ptr + taken(old(self).data_bits as int, old(self).ptr as int, len as int),
            ret < pow2(len as nat),
            final(self).data_bits == old(self).data_bits,
            final(self).data == old(self).data,
            final(self).raw == old(self).raw,
    {
        let mut ret: u32 = 0;
        let mut left = len;
        let ghost start = self.ptr as int;
        while left != 0 && self.ptr < self.data_bits
            invariant
                self.wf(),
                left <= len <= 32,
                self.ptr == start + (len - left),
                self.data_bits == old(self).data_bits,
                self.data == old(self).data,
                self.raw == old(self).raw,
                start == old(self).ptr,
                ret == take_value(self.data@, start, len - left),
            decreases left,
        {
            let b = self.data[(self.ptr / 8) as usize];
            let bitpos = self.ptr % 8;
            proof {
                let k = (len - left) as int;
                lemma_take_value_bound(self.data@, start, k);
                lemma2_to64();
                if k < 31 {
                    lemma_pow2_strictly_increases(k as nat, 31);
                }
            }
            ret = ret * 2;
            if b & (0x80u8 >> bitpos) != 0 {
                ret = ret + 1;
            }
            self.ptr += 1;
            left -= 1;
        }
        proof {
            let k = (len - left) as int;
            lemma_take_value_bound(self.data@, start, k);
            if k < len {
                lemma_pow2_strictly_increases(k as nat, len as nat);
            }
        }
        ret
    }
}

} // verus!
