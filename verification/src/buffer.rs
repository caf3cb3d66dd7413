//! A byte buffer with a cursor that counts bits.

use vstd::prelude::*;
use vstd::arithmetic::div_mod::lemma_fundamental_div_mod_converse;
use vstd::arithmetic::power2::{lemma2_to64, lemma_pow2_strictly_increases};
use vstd::bits::{
    lemma_u64_low_bits_mask_is_mod,
    lemma_u64_pow2_no_overflow,
    lemma_u64_shl_is_mul,
    lemma_u64_shr_is_div,
    low_bits_mask,
};
use crate::bits::{
    bit_at,
    bits_value,
    lemma_bits_value_bound,
    lemma_bits_value_byte,
    lemma_bits_value_split,
    lemma_bits_value_window,
    total_bits,
};
use crate::error::ErrorType;
use crate::frame::{frame_views, lemma_frame_outcome_advances, scan_outcome, Frame, FrameView};

verus! {

/// What a read of `n` bits at bit `pos` of `data` yields.
///
/// A width above 32 is refused before anything else is looked at, and a
/// width of 0 reads nothing. Any other read must end before the last bit of
/// the data: one that would consume the final bit is out of range.
pub open spec fn read_result(data: Seq<u8>, pos: int, n: u32) -> Result<u32, ErrorType> {
    if n > 32 {
        Err(ErrorType::WidthExceeded)
    } else if n == 0 {
        Ok(0)
    } else if pos + n >= total_bits(data) {
        Err(ErrorType::OutOfRange)
    } else {
        Ok(bits_value(data, pos, n as nat) as u32)
    }
}

/// The first 15 bits of a frame header of MPEG-1 Layer III: twelve ones, the
/// version bit set, and the layer code 01.
pub const FRAME_SYNC: u32 = 0x7ffd;

/// The first position from `pos` on where the 15 bits of `FRAME_SYNC` stand
/// and can all be read, if there is one.
pub open spec fn next_sync(data: Seq<u8>, pos: int) -> Option<int>
    decreases total_bits(data) - pos,
{
    if pos + 15 >= total_bits(data) {
        None
    } else if bits_value(data, pos, 15) == FRAME_SYNC {
        Some(pos)
    } else {
        next_sync(data, pos + 1)
    }
}

/// Where a search for `FRAME_SYNC` from `pos` on that finds nothing leaves
/// the cursor: before the last bit of the data, which no read takes, or at
/// `pos` when nothing could be read at all.
pub open spec fn exhausted_at(data: Seq<u8>, pos: int) -> int {
    if pos + 1 >= total_bits(data) {
        pos
    } else {
        total_bits(data) - 1
    }
}

/// What `next_sync` finds is the nearest match from `pos` on, and there is
/// room behind it for the 15 bits and one more. When it finds nothing,
/// there is no such place.
pub proof fn lemma_next_sync_nearest(data: Seq<u8>, pos: int)
    ensures
        match next_sync(data, pos) {
            Some(start) => {
                &&& pos <= start
                &&& start + 15 < total_bits(data)
                &&& bits_value(data, start, 15) == FRAME_SYNC
                &&& forall|p: int| pos <= p < start ==> bits_value(data, p, 15) != FRAME_SYNC
            },
            None => forall|p: int|
                pos <= p && p + 15 < total_bits(data) ==> bits_value(data, p, 15) != FRAME_SYNC,
        },
    decreases total_bits(data) - pos,
{
    if pos + 15 < total_bits(data) && bits_value(data, pos, 15) != FRAME_SYNC {
        lemma_next_sync_nearest(data, pos + 1);
    }
}

/// The last bits taken in, at most 15 of them, by a scan that began at
/// `start` and has come to `pos`, as a number.
pub open spec fn scan_window(data: Seq<u8>, start: int, pos: int) -> nat {
    if pos - start < 15 {
        bits_value(data, start, (pos - start) as nat)
    } else {
        bits_value(data, pos - 15, 15)
    }
}

/// The earliest position that a scan from `start` has not ruled out when it
/// has come to `pos`.
pub open spec fn scan_candidate(start: int, pos: int) -> int {
    if pos - start < 15 {
        start
    } else {
        pos - 14
    }
}

/// Taking in one more bit shifts it into the window from below and pushes
/// the sixteenth bit out.
pub proof fn lemma_scan_window_step(data: Seq<u8>, start: int, pos: int)
    requires
        0 <= start <= pos,
    ensures
        scan_window(data, start, pos + 1) == (2 * scan_window(data, start, pos) + bits_value(
            data,
            pos,
            1,
        )) % 0x8000,
        scan_window(data, start, pos) < 0x8000,
        bits_value(data, pos, 1) <= 1,
        pos + 1 - start < 15 ==> scan_window(data, start, pos + 1) < 0x4000,
{
    lemma2_to64();
    let seen: nat = if pos - start < 15 {
        (pos - start) as nat
    } else {
        15
    };
    let from: int = pos - seen;
    let next: nat = bits_value(data, from, seen + 1);
    assert(bits_value(data, pos, 0) == 0);
    assert(bits_value(data, pos, 1) == bit_at(data, pos));
    assert(next == 2 * bits_value(data, from, seen) + bit_at(data, pos));
    lemma_bits_value_bound(data, from, seen);
    lemma_bits_value_bound(data, from, seen + 1);
    if seen < 15 {
        lemma_pow2_strictly_increases(seen, 15);
    }
    if seen + 1 < 14 {
        lemma_pow2_strictly_increases(seen + 1, 14);
    }
    if seen == 15 {
        lemma_bits_value_split(data, from, 1, 15);
        lemma_bits_value_bound(data, from + 1, 15);
        lemma_fundamental_div_mod_converse(
            next as int,
            0x8000,
            bits_value(data, from, 1) as int,
            bits_value(data, from + 1, 15) as int,
        );
    } else {
        lemma_fundamental_div_mod_converse(next as int, 0x8000, 0, next as int);
    }
}

/// The bytes of a stream and the position, in bits, of the next read.
pub struct Buffer {
    /// The whole stream.
    pub data: Vec<u8>,
    /// The cursor: the bit that the next read starts at.
    pub pos: usize,
    /// Eight times the number of bytes.
    pub total_bits: usize,
}

impl Buffer {
    /// The cursor lies inside the buffer or at its end, and `total_bits`
    /// counts the bits of `data`.
    pub open spec fn wf(&self) -> bool {
        &&& self.total_bits == total_bits(self.data@)
        &&& self.pos <= self.total_bits
    }

    /// A buffer over `data` with the cursor at bit 0.
    pub fn new(data: Vec<u8>) -> (buffer: Buffer)
        requires
            8 * data@.len() <= usize::MAX,
        ensures
            buffer.wf(),
            buffer.data@ == data@,
            buffer.pos == 0,
    {
        let total_bits: usize = data.len() * 8;
        Buffer { data, pos: 0, total_bits }
    }

    /// Reads the next `n` bits as an unsigned number, first bit highest.
    /// A successful read moves the cursor past the bits it read; a failed
    /// one leaves it where it was.
    pub fn get_bits(&mut self, n: u32) -> (r: Result<u32, ErrorType>)
        requires
            old(self).wf(),
        ensures
            final(self).wf(),
            final(self).data@ == old(self).data@,
            r == read_result(old(self).data@, old(self).pos as int, n),
            r is Ok ==> final(self).pos == old(self).pos + n,
            r is Err ==> final(self).pos == old(self).pos,
    {
        if n > 32 {
            return Err(ErrorType::WidthExceeded);
        }
        if n == 0 {
            return Ok(0);
        }
        let width: usize = n as usize;
        if width >= self.total_bits - self.pos {
            return Err(ErrorType::OutOfRange);
        }
        let first: usize = self.pos / 8;
        let last: usize = (self.pos + width - 1) / 8;
        let mut acc: u64 = 0;
        let mut i: usize = first;
        while i <= last
            invariant
                first <= i <= last + 1,
                last < self.data.len(),
                last - first <= 4,
                acc == bits_value(self.data@, 8 * first, (8 * (i - first)) as nat),
            decreases last + 1 - i,
        {
            proof {
                let done: nat = (8 * (i - first)) as nat;
                lemma_bits_value_bound(self.data@, 8 * first, done);
                lemma_bits_value_split(self.data@, 8 * first, done, 8);
                lemma_bits_value_byte(self.data@, i as int);
                lemma2_to64();
                if done < 32 {
                    lemma_pow2_strictly_increases(done, 32);
                }
            }
            let byte: u64 = self.data[i] as u64;
            assert((acc << 8) | byte == acc * 256 + byte) by (bit_vector)
                requires
                    acc <= 0xffff_ffff,
                    byte <= 0xff,
            ;
            acc = (acc << 8) | byte;
            i += 1;
        }
        let drop: u64 = (7 - (self.pos + width - 1) % 8) as u64;
        proof {
            lemma_u64_pow2_no_overflow(n as nat);
            lemma_u64_shl_is_mul(1, n as u64);
        }
        let mask: u64 = (1u64 << (n as u64)) - 1;
        proof {
            let spanned: nat = (8 * (last + 1 - first)) as nat;
            let skip: nat = (self.pos - 8 * first) as nat;
            lemma_bits_value_window(self.data@, 8 * first, spanned, skip, n as nat);
            lemma_u64_shr_is_div(acc, drop);
            lemma_u64_low_bits_mask_is_mod(acc >> drop, n as nat);
            lemma2_to64();
            if n < 32 {
                lemma_pow2_strictly_increases(n as nat, 32);
            }
            assert(mask == low_bits_mask(n as nat));
        }
        let value: u32 = ((acc >> drop) & mask) as u32;
        self.pos = self.pos + width;
        Ok(value)
    }

    /// Moves the cursor to bit `pos`, which must lie before the end.
    pub fn set_pos(&mut self, pos: usize) -> (r: Result<(), ErrorType>)
        requires
            old(self).wf(),
        ensures
            final(self).wf(),
            final(self).data@ == old(self).data@,
            r == if pos < old(self).total_bits {
                Ok(())
            } else {
                Err(ErrorType::OutOfRange)
            },
            r is Ok ==> final(self).pos == pos,
            r is Err ==> final(self).pos == old(self).pos,
    {
        if pos >= self.total_bits {
            return Err(ErrorType::OutOfRange);
        }
        self.pos = pos;
        Ok(())
    }

    /// Moves the cursor by `n` bits, forwards or backwards. The target may
    /// be the end of the buffer, but nothing beyond it and nothing before
    /// bit 0.
    pub fn move_pos(&mut self, n: isize) -> (r: Result<(), ErrorType>)
        requires
            old(self).wf(),
        ensures
            final(self).wf(),
            final(self).data@ == old(self).data@,
            r == if 0 <= old(self).pos + n <= old(self).total_bits {
                Ok(())
            } else {
                Err(ErrorType::OutOfRange)
            },
            r is Ok ==> final(self).pos == old(self).pos + n,
            r is Err ==> final(self).pos == old(self).pos,
    {
        if n >= 0 {
            let forward: usize = n as usize;
            if forward <= self.total_bits - self.pos {
                self.pos = self.pos + forward;
                return Ok(());
            }
        } else {
            let back_less_one: usize = (-(n + 1)) as usize;
            if back_less_one < self.pos {
                self.pos = self.pos - back_less_one - 1;
                return Ok(());
            }
        }
        Err(ErrorType::OutOfRange)
    }

    /// Moves the cursor to the next place where a frame can start: the
    /// nearest position, from the cursor on, where `FRAME_SYNC` stands.
    ///
    /// The bits are taken in one at a time. When they run out before the
    /// pattern has been seen, the cursor stays where the last read failed.
    pub fn set_pos_next_frame(&mut self) -> (r: Result<(), ErrorType>)
        requires
            old(self).wf(),
        ensures
            final(self).wf(),
            final(self).data@ == old(self).data@,
            match next_sync(old(self).data@, old(self).pos as int) {
                Some(s) => r is Ok && final(self).pos == s,
                None => r == Err::<(), ErrorType>(ErrorType::OutOfRange) && final(self).pos
                    == exhausted_at(old(self).data@, old(self).pos as int),
            },
    {
        let start: usize = self.pos;
        let mut window: u32 = 0;
        loop
            invariant
                self.wf(),
                self.data@ == old(self).data@,
                self.total_bits == old(self).total_bits,
                start == old(self).pos,
                start <= self.pos,
                self.pos == start || self.pos < self.total_bits,
                window == scan_window(self.data@, start as int, self.pos as int),
                next_sync(self.data@, start as int) == next_sync(
                    self.data@,
                    scan_candidate(start as int, self.pos as int),
                ),
            decreases self.total_bits - self.pos,
        {
            proof {
                lemma_scan_window_step(self.data@, start as int, self.pos as int);
            }
            let bit: u32 = match self.get_bits(1) {
                Ok(bit) => bit,
                Err(e) => {
                    assert(next_sync(self.data@, scan_candidate(start as int, self.pos as int))
                        is None);
                    return Err(ErrorType::OutOfRange);
                },
            };
            assert(((window << 1) | bit) & 0x7fff == (2 * window + bit) % 0x8000) by (bit_vector)
                requires
                    window < 0x8000,
                    bit <= 1,
            ;
            window = ((window << 1) | bit) & 0x7fff;
            if window == FRAME_SYNC {
                self.pos = self.pos - 15;
                return Ok(());
            }
        }
    }

    /// Collects the frames from the cursor on, in stream order.
    ///
    /// A frame that fails to decode is dropped and the search goes on behind
    /// what was read of it. The scan ends when the bits run out, in the
    /// search for a frame or inside one.
    pub fn extract_frames(&mut self) -> (frames: Vec<Frame>)
        requires
            old(self).wf(),
        ensures
            final(self).wf(),
            final(self).data@ == old(self).data@,
            (frame_views(frames@), final(self).pos as int) == scan_outcome(
                old(self).data@,
                old(self).pos as int,
            ),
    {
        let ghost data = self.data@;
        let ghost origin: int = self.pos as int;
        let mut frames: Vec<Frame> = Vec::new();
        assert(frame_views(frames@) + scan_outcome(data, origin).0 =~= scan_outcome(data, origin).0);
        loop
            invariant_except_break
                scan_outcome(data, origin) == (
                    frame_views(frames@) + scan_outcome(data, self.pos as int).0,
                    scan_outcome(data, self.pos as int).1,
                ),
            invariant
                self.wf(),
                self.data@ == data,
                data == old(self).data@,
                origin == old(self).pos,
            ensures
                scan_outcome(data, origin) == (frame_views(frames@), self.pos as int),
            decreases self.total_bits - self.pos,
        {
            let ghost before: int = self.pos as int;
            let ghost collected = frame_views(frames@);
            proof {
                lemma_next_sync_nearest(data, before);
            }
            if self.set_pos_next_frame().is_err() {
                assert(collected + Seq::<FrameView>::empty() =~= collected);
                break;
            }
            proof {
                lemma_frame_outcome_advances(data, self.pos as int);
            }
            match Frame::create_from_buffer(self) {
                Ok(frame) => {
                    let ghost view = frame@;
                    frames.push(frame);
                    proof {
                        let rest = scan_outcome(data, self.pos as int).0;
                        assert(frame_views(frames@) =~= collected.push(view));
                        assert(collected.push(view) + rest =~= collected + (seq![view] + rest));
                    }
                },
                Err(e) => {
                    if e == ErrorType::OutOfRange {
                        assert(collected + Seq::<FrameView>::empty() =~= collected);
                        break;
                    }
                },
            }
        }
        frames
    }
}

} // verus!
