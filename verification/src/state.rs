//! The SHA-1 chaining value and compression function.
//!
//! `Sha1State` holds the five 32-bit hash words carried between blocks.  The
//! spec functions here define the compression function mathematically: a
//! 64-byte block is parsed into 16 big-endian words, expanded to an 80-word
//! message schedule, mixed into the working variables over 80 rounds, and the
//! result is added back into the chaining value modulo 2^32.  The executable
//! `process_block` is proved to implement exactly that definition.

use vstd::prelude::*;

use crate::util::BlockProcessor;

verus! {

/// The five 32-bit words of the SHA-1 chaining value.
#[derive(Clone, Copy, PartialEq, Eq, Structural)]
pub struct Sha1State {
    pub h0: u32,
    pub h1: u32,
    pub h2: u32,
    pub h3: u32,
    pub h4: u32,
}

/// The fixed initial chaining value of SHA-1.
pub open spec fn init() -> Sha1State {
    Sha1State {
        h0: 0x67452301u32,
        h1: 0xefcdab89u32,
        h2: 0x98badcfeu32,
        h3: 0x10325476u32,
        h4: 0xc3d2e1f0u32,
    }
}

/// Addition modulo 2^32, the wrapping addition SHA-1 is built on.
pub open spec fn wadd(x: u32, y: u32) -> u32 {
    if x + y > u32::MAX {
        (x + y - 0x1_0000_0000) as u32
    } else {
        (x + y) as u32
    }
}

/// Circular left rotation of a 32-bit word by `n` bits, `0 < n < 32`.
pub open spec fn rotl(x: u32, n: u32) -> u32
    recommends
        0 < n < 32,
{
    (x << n) | (x >> ((32 - n) as u32))
}

/// Word `i` of a block, read as a big-endian 32-bit integer from bytes
/// `4*i .. 4*i+4`.
pub open spec fn word_at(block: Seq<u8>, i: int) -> u32
    recommends
        0 <= i,
        4 * i + 3 < block.len(),
{
    ((block[4 * i] as u32) << 24u32) | ((block[4 * i + 1] as u32) << 16u32) | ((block[4 * i + 2]
        as u32) << 8u32) | (block[4 * i + 3] as u32)
}

/// Word `i` of the 80-word message schedule: the first 16 words are the
/// block's native words, the rest XOR-and-rotate expansion.
pub open spec fn sched(block: Seq<u8>, i: int) -> u32
    recommends
        0 <= i < 80,
        block.len() == 64,
    decreases i,
{
    if i < 16 {
        word_at(block, i)
    } else {
        rotl(
            sched(block, i - 3) ^ sched(block, i - 8) ^ sched(block, i - 14) ^ sched(
                block,
                i - 16,
            ),
            1,
        )
    }
}

/// The round function, selected by the round index.
pub open spec fn round_f(i: int, b: u32, c: u32, d: u32) -> u32 {
    if i < 20 {
        (b & c) | ((!b) & d)
    } else if i < 40 {
        b ^ c ^ d
    } else if i < 60 {
        (b & c) | (b & d) | (c & d)
    } else {
        b ^ c ^ d
    }
}

/// The round constant, selected by the round index.
pub open spec fn round_k(i: int) -> u32 {
    if i < 20 {
        0x5a827999u32
    } else if i < 40 {
        0x6ed9eba1u32
    } else if i < 60 {
        0x8f1bbcdcu32
    } else {
        0xca62c1d6u32
    }
}

/// One SHA-1 round applied to the working variables `(a, b, c, d, e)`.
pub open spec fn round_step(block: Seq<u8>, t: (u32, u32, u32, u32, u32), i: int) -> (
    u32,
    u32,
    u32,
    u32,
    u32,
) {
    let (a, b, c, d, e) = t;
    (
        wadd(wadd(wadd(wadd(rotl(a, 5), round_f(i, b, c, d)), e), round_k(i)), sched(block, i)),
        a,
        rotl(b, 30),
        c,
        d,
    )
}

/// The working variables after the first `i` rounds, starting from the
/// chaining value `s`.
pub open spec fn rounds_upto(block: Seq<u8>, s: Sha1State, i: int) -> (u32, u32, u32, u32, u32)
    decreases i,
{
    if i <= 0 {
        (s.h0, s.h1, s.h2, s.h3, s.h4)
    } else {
        round_step(block, rounds_upto(block, s, i - 1), i - 1)
    }
}

/// The SHA-1 compression function: fold one 64-byte block into the chaining
/// value.
pub open spec fn compress(s: Sha1State, block: Seq<u8>) -> Sha1State
    recommends
        block.len() == 64,
{
    let (a, b, c, d, e) = rounds_upto(block, s, 80);
    Sha1State {
        h0: wadd(s.h0, a),
        h1: wadd(s.h1, b),
        h2: wadd(s.h2, c),
        h3: wadd(s.h3, d),
        h4: wadd(s.h4, e),
    }
}

/// Circular left rotation, executable form.
fn rotl32(x: u32, n: u32) -> (r: u32)
    requires
        0 < n < 32,
    ensures
        r == rotl(x, n),
{
    (x << n) | (x >> (32 - n))
}

impl Sha1State {
    /// A fresh chaining value, holding the SHA-1 initial constants.
    pub fn new() -> (r: Sha1State)
        ensures
            r == init(),
    {
        Sha1State {
            h0: 0x67452301,
            h1: 0xefcdab89,
            h2: 0x98badcfe,
            h3: 0x10325476,
            h4: 0xc3d2e1f0,
        }
    }
}

impl BlockProcessor for Sha1State {
    /// Folding a block into the chaining value is the compression function.
    open spec fn absorb(self, block: Seq<u8>) -> Sha1State {
        compress(self, block)
    }

    fn process(&mut self, block: &[u8]) {
        let mut w: [u32; 80] = [0u32; 80];
        for i in 0..16
            invariant
                block@.len() == 64,
                forall|j: int| 0 <= j < i ==> w@[j] == sched(block@, j),
        {
            let word = ((block[4 * i] as u32) << 24) | ((block[4 * i + 1] as u32) << 16) | ((
            block[4 * i + 2] as u32) << 8) | (block[4 * i + 3] as u32);
            w[i] = word;
            proof {
                assert(sched(block@, i as int) == word_at(block@, i as int));
            }
        }
        for i in 16..80
            invariant
                block@.len() == 64,
                forall|j: int| 0 <= j < i ==> w@[j] == sched(block@, j),
        {
            let x = w[i - 3] ^ w[i - 8] ^ w[i - 14] ^ w[i - 16];
            let word = rotl32(x, 1);
            w[i] = word;
        }
        let ghost orig = *self;
        let mut a = self.h0;
        let mut b = self.h1;
        let mut c = self.h2;
        let mut d = self.h3;
        let mut e = self.h4;
        for i in 0..80
            invariant
                block@.len() == 64,
                forall|j: int| 0 <= j < 80 ==> w@[j] == sched(block@, j),
                (a, b, c, d, e) == rounds_upto(block@, orig, i as int),
                *self == orig,
        {
            let (f, k): (u32, u32) = if i < 20 {
                ((b & c) | ((!b) & d), 0x5a827999)
            } else if i < 40 {
                (b ^ c ^ d, 0x6ed9eba1)
            } else if i < 60 {
                ((b & c) | (b & d) | (c & d), 0x8f1bbcdc)
            } else {
                (b ^ c ^ d, 0xca62c1d6)
            };
            let tmp = rotl32(a, 5).wrapping_add(f).wrapping_add(e).wrapping_add(k).wrapping_add(
                w[i],
            );
            proof {
                assert(rounds_upto(block@, orig, i + 1) == round_step(
                    block@,
                    rounds_upto(block@, orig, i as int),
                    i as int,
                ));
            }
            e = d;
            d = c;
            c = rotl32(b, 30);
            b = a;
            a = tmp;
        }
        self.h0 = self.h0.wrapping_add(a);
        self.h1 = self.h1.wrapping_add(b);
        self.h2 = self.h2.wrapping_add(c);
        self.h3 = self.h3.wrapping_add(d);
        self.h4 = self.h4.wrapping_add(e);
    }
}

} // verus!
