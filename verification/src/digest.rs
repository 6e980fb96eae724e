//! Standards-compliant padding and the complete SHA-1 digest function.
//!
//! `sha1_of` is the mathematical definition the engine is proved against: the
//! message is extended with a `0x80` marker, zero fill to 8 bytes short of a
//! block boundary and the bit length big-endian, then every 64-byte block is
//! folded into the initial chaining value and the five words are serialized
//! big-endian.

use vstd::prelude::*;

use crate::state;
use crate::state::Sha1State;
use crate::util::BlockProcessor;
use crate::util::absorb_blocks;
use crate::util::be32;
use crate::util::be64;
use crate::util::lemma_absorb_blocks_single;
use crate::util::lemma_absorb_blocks_split;
use crate::util::pad_zero_count;
use crate::util::zeros;

verus! {

/// The padding appended to a message of `len` bytes: a `0x80` marker, zero
/// fill to 8 bytes short of a block boundary, then the bit length big-endian.
pub open spec fn padding(len: nat) -> Seq<u8>
    recommends
        len < 0x2000000000000000,
{
    seq![0x80u8] + zeros(pad_zero_count(len as int % 64, 8)) + be64((len * 8) as u64)
}

/// A message extended with its padding; the result is a whole number of
/// 64-byte blocks.
pub open spec fn padded(msg: Seq<u8>) -> Seq<u8>
    recommends
        msg.len() < 0x2000000000000000,
{
    msg + padding(msg.len())
}

/// The 20 digest bytes of a chaining value, each word big-endian.
pub open spec fn state_bytes(s: Sha1State) -> Seq<u8> {
    be32(s.h0) + be32(s.h1) + be32(s.h2) + be32(s.h3) + be32(s.h4)
}

/// The SHA-1 digest of a byte sequence.
pub open spec fn sha1_of(msg: Seq<u8>) -> Seq<u8>
    recommends
        msg.len() < 0x2000000000000000,
{
    state_bytes(absorb_blocks(state::init(), padded(msg)))
}

/// Absorbing a stream that ends 8 bytes short of a block boundary and then
/// the 8 trailing bytes equals absorbing the stream's complete blocks and
/// then one final block made of the stream's remainder and the trailer.
pub proof fn lemma_absorb_final_block<P: BlockProcessor>(p: P, fed: Seq<u8>, trailer: Seq<u8>)
    requires
        fed.len() % 64 == 56,
        trailer.len() == 8,
    ensures
        absorb_blocks(p, fed + trailer) == absorb_blocks(p, fed).absorb(
            fed.skip(fed.len() - 56) + trailer,
        ),
{
    let n = fed.len() - 56;
    let last = fed.skip(n) + trailer;
    assert(fed.take(n).len() % 64 == 0);
    assert(fed + trailer =~= fed.take(n) + last);
    lemma_absorb_blocks_split(p, fed.take(n), last);
    let q = absorb_blocks(p, fed.take(n));
    lemma_absorb_blocks_single(q, last);
    assert(fed =~= fed.take(n) + fed.skip(n));
    lemma_absorb_blocks_split(p, fed.take(n), fed.skip(n));
    assert(absorb_blocks(q, fed.skip(n)) == q);
}

} // verus!
