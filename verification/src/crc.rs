//! Incremental CRC-32 and byte counting over a stream of chunks.

use vstd::prelude::*;

verus! {

/// The reflected CRC-32 polynomial.
pub const CRC32_POLY: u32 = 0xedb88320;

/// The initial (and final-complement) register value.
pub const CRC32_INIT: u32 = 0xffffffff;

/// One shift-and-conditional-xor round of the reflected polynomial.
pub open spec fn crc32_bit_step(r: u32) -> u32 {
    if r & 1 == 1 {
        (r >> 1) ^ CRC32_POLY
    } else {
        r >> 1
    }
}

/// `n` rounds of `crc32_bit_step`.
pub open spec fn crc32_bit_steps(r: u32, n: nat) -> u32
    decreases n,
{
    if n == 0 {
        r
    } else {
        crc32_bit_step(crc32_bit_steps(r, (n - 1) as nat))
    }
}

/// Folding one byte into the running register: xor it into the low bits,
/// then run eight bit rounds.
pub open spec fn crc32_push_byte(r: u32, b: u8) -> u32 {
    crc32_bit_steps(r ^ (b as u32), 8)
}

/// The running register over a byte sequence, starting from all ones.
pub open spec fn crc32_register(s: Seq<u8>) -> u32
    decreases s.len(),
{
    if s.len() == 0 {
        CRC32_INIT
    } else {
        crc32_push_byte(crc32_register(s.drop_last()), s.last())
    }
}

/// CRC-32 of a byte sequence (reflected polynomial 0xEDB88320, initial
/// register 0xFFFFFFFF, output the complement of the final register).
pub open spec fn crc32_of(s: Seq<u8>) -> u32 {
    crc32_register(s) ^ CRC32_INIT
}

pub proof fn lemma_crc32_register_push(s: Seq<u8>, b: u8)
    ensures
        crc32_register(s.push(b)) == crc32_push_byte(crc32_register(s), b),
{
    assert(s.push(b).drop_last() =~= s);
    assert(s.push(b).last() == b);
}

/// Incremental CRC-32 and byte count over the chunks of one entry.
/// Reset between entries by building a fresh accumulator.
pub struct ChecksumAccumulator {
    register: u32,
    count: u64,
    seen: Ghost<Seq<u8>>,
}

impl ChecksumAccumulator {
    /// All bytes folded in so far, oldest first.
    pub closed spec fn bytes_seen(&self) -> Seq<u8> {
        self.seen@
    }

    pub closed spec fn wf(&self) -> bool {
        &&& self.register == crc32_register(self.seen@)
        &&& self.count == self.seen@.len()
    }

    pub fn new() -> (acc: Self)
        ensures
            acc.wf(),
            acc.bytes_seen() == Seq::<u8>::empty(),
    {
        ChecksumAccumulator { register: CRC32_INIT, count: 0, seen: Ghost(Seq::empty()) }
    }

    /// Folds one more chunk into the running checksum and count.
    pub fn update(&mut self, chunk: &[u8])
        requires
            old(self).wf(),
            old(self).bytes_seen().len() + chunk@.len() <= u64::MAX,
        ensures
            final(self).wf(),
            final(self).bytes_seen() == old(self).bytes_seen() + chunk@,
    {
        let ghost start = self.seen@;
        let mut i: usize = 0;
        while i < chunk.len()
            invariant
                i <= chunk@.len(),
                start.len() + chunk@.len() <= u64::MAX,
                self.seen@ == start + chunk@.subrange(0, i as int),
                self.register == crc32_register(self.seen@),
                self.count == self.seen@.len(),
            decreases chunk@.len() - i,
        {
            let b = chunk[i];
            let ghost before = self.seen@;
            let mut r = self.register ^ (b as u32);
            let ghost r0 = r;
            let mut j: usize = 0;
            while j < 8
                invariant
                    j <= 8,
                    r == crc32_bit_steps(r0, j as nat),
                decreases 8 - j,
            {
                if r & 1 == 1 {
                    r = (r >> 1) ^ CRC32_POLY;
                } else {
                    r = r >> 1;
                }
                j = j + 1;
            }
            proof {
                lemma_crc32_register_push(before, b);
            }
            self.register = r;
            self.count = self.count + 1;
            self.seen = Ghost(before.push(b));
            proof {
                assert(before.push(b) =~= start + chunk@.subrange(0, i + 1));
            }
            i = i + 1;
        }
        proof {
            assert(start + chunk@.subrange(0, chunk@.len() as int) =~= start + chunk@);
        }
    }

    /// The CRC-32 of everything seen so far.
    pub fn crc(&self) -> (c: u32)
        requires
            self.wf(),
        ensures
            c == crc32_of(self.bytes_seen()),
    {
        self.register ^ CRC32_INIT
    }

    /// How many bytes have been folded in.
    pub fn byte_count(&self) -> (n: u64)
        requires
            self.wf(),
        ensures
            n == self.bytes_seen().len(),
    {
        self.count
    }
}

} // verus!
