//! A streaming SHA-1 message-digest engine.
//!
//! The engine consumes an arbitrary-length byte stream delivered across any
//! number of `write` calls and produces the standard 20-byte digest on
//! demand.  Digests may be queried mid-stream without disturbing the live
//! state, and hashing may continue afterwards.
//!
//! Every operation carries a contract relating it to the mathematical
//! definition of SHA-1 found in [`state`] and [`digest`]: an engine whose
//! written bytes are `m` hands out exactly `sha1_of(m)`.

use vstd::prelude::*;

pub mod digest;
pub mod state;
pub mod util;

pub use state::Sha1State;
pub use util::BlockProcessor;
pub use util::FixedBuffer64;
pub use util::add_bytes_to_bits;
pub use util::to_hex;
pub use util::write_u32_be;

use digest::lemma_absorb_final_block;
use digest::padded;
use digest::sha1_of;
use digest::state_bytes;
use util::absorb_blocks;
use util::be64;
use util::hex_of;
use util::lemma_absorb_blocks_split;
use util::lemma_absorb_blocks_take;

verus! {

/// The cumulative input length in bits no longer fits the 64-bit length
/// field that SHA-1 appends at digest time.
#[derive(Clone, Copy, PartialEq, Eq, Structural, Debug)]
pub struct OverflowError;

/// Represents a SHA-1 hash object in memory.
///
/// Its abstract value, written `self@`, is the sequence of all bytes written
/// since construction or the last `reset`.
pub struct Sha1 {
    state: Sha1State,
    buffer: FixedBuffer64,
    length_bits: u64,
    written: Ghost<Seq<u8>>,
}

impl View for Sha1 {
    type V = Seq<u8>;

    closed spec fn view(&self) -> Seq<u8> {
        self.written@
    }
}

impl Sha1 {
    /// The engine's internal invariant: the bit counter is 8 times the bytes
    /// written, the chaining value is the fold of every complete block, and
    /// the buffer holds exactly the trailing partial block.
    pub closed spec fn wf(self) -> bool {
        &&& self.buffer.wf()
        &&& self.written@.len() < 0x2000000000000000
        &&& self.length_bits == self.written@.len() * 8
        &&& self.buffer.contents() == self.written@.skip(
            self.written@.len() - (self.written@.len() % 64),
        )
        &&& self.state == absorb_blocks(state::init(), self.written@)
    }

    /// Creates a fresh SHA-1 hash object.
    pub fn new() -> (r: Sha1)
        ensures
            r.wf(),
            r@ == Seq::<u8>::empty(),
    {
        let r = Sha1 {
            state: Sha1State::new(),
            buffer: FixedBuffer64::new(),
            length_bits: 0,
            written: Ghost(Seq::empty()),
        };
        proof {
            assert(r.written@.skip(0) =~= Seq::<u8>::empty());
        }
        r
    }

    /// Restore the freshly-constructed state: initial constants, empty
    /// buffer, zero bit counter.
    pub fn reset(&mut self)
        ensures
            final(self).wf(),
            final(self)@ == Seq::<u8>::empty(),
    {
        self.state = Sha1State::new();
        self.buffer.reset();
        self.length_bits = 0;
        self.written = Ghost(Seq::empty());
        proof {
            assert(self.written@.skip(0) =~= Seq::<u8>::empty());
        }
    }

    /// Feed data to the engine.
    ///
    /// Fails with `OverflowError` — leaving the engine untouched — exactly
    /// when the cumulative byte count would reach 2^61, the point at which
    /// the bit count overflows its 64-bit field.
    pub fn write(&mut self, data: &[u8]) -> (r: Result<(), OverflowError>)
        requires
            old(self).wf(),
        ensures
            final(self).wf(),
            r is Ok <==> old(self)@.len() + data@.len() < 0x2000000000000000,
            r is Ok ==> final(self)@ == old(self)@ + data@,
            r is Err ==> *final(self) == *old(self),
    {
        let n = data.len() as u64;
        if n >= 0x2000000000000000u64 {
            return Err(OverflowError);
        }
        let low_bits = n * 8;
        if self.length_bits > u64::MAX - low_bits {
            return Err(OverflowError);
        }
        self.length_bits = add_bytes_to_bits(self.length_bits, n);
        let ghost msg = self.written@;
        self.buffer.input(data, &mut self.state);
        self.written = Ghost(msg + data@);
        proof {
            let c = msg.len() - (msg.len() % 64);
            let all = msg.skip(c) + data@;
            let neww = msg + data@;
            assert(neww =~= msg.take(c) + all);
            lemma_absorb_blocks_take(state::init(), msg, c);
            lemma_absorb_blocks_split(state::init(), msg.take(c), all);
            assert(msg.take(c).len() == c);
            assert((all.len() + c) % 64 == all.len() % 64);
            assert(all.skip(all.len() - (all.len() % 64)) =~= neww.skip(
                neww.len() - (neww.len() % 64),
            ));
        }
        Ok(())
    }

    /// Retrieve the digest into the first 20 bytes of `out`, which must be
    /// large enough to contain the result; bytes beyond are untouched.
    ///
    /// Operates on a copy of the engine's state, so it can be called any
    /// number of times, at any point of the stream, and hashing may resume
    /// afterwards.
    pub fn output(&self, out: &mut Vec<u8>)
        requires
            self.wf(),
            old(out)@.len() >= 20,
        ensures
            final(out)@ == sha1_of(self@) + old(out)@.skip(20),
    {
        let mut m = Sha1 {
            state: self.state,
            buffer: self.buffer,
            length_bits: self.length_bits,
            written: Ghost(self.written@),
        };
        let ghost msg = self.written@;
        let ghost c = msg.len() - (msg.len() % 64);
        m.buffer.standard_padding(8, &mut m.state);
        let ghost fed = msg.skip(c) + seq![0x80u8] + util::zeros(
            util::pad_zero_count(msg.len() as int % 64, 8),
        );
        let mut trailer: Vec<u8> = vec![0u8; 8];
        write_u32_be(&mut trailer, 0, (self.length_bits >> 32) as u32);
        write_u32_be(&mut trailer, 4, self.length_bits as u32);
        proof {
            let b = self.length_bits;
            assert((((b >> 32) as u32) >> 24u32) as u8 == (b >> 56u64) as u8 && (((b >> 32) as u32)
                >> 16u32) as u8 == (b >> 48u64) as u8 && (((b >> 32) as u32) >> 8u32) as u8 == (b
                >> 40u64) as u8 && ((b >> 32) as u32) as u8 == (b >> 32u64) as u8 && ((b as u32)
                >> 24u32) as u8 == (b >> 24u64) as u8 && ((b as u32) >> 16u32) as u8 == (b
                >> 16u64) as u8 && ((b as u32) >> 8u32) as u8 == (b >> 8u64) as u8 && (b as u32)
                as u8 == b as u8) by (bit_vector);
            assert(trailer@ =~= be64(self.length_bits));
        }
        m.buffer.next(trailer.as_slice());
        let block = m.buffer.full_buffer();
        m.state.process(block.as_slice());
        proof {
            let big = msg.take(c) + fed;
            assert(big =~= msg + seq![0x80u8] + util::zeros(
                util::pad_zero_count(msg.len() as int % 64, 8),
            ));
            assert((msg.len() * 8) as u64 == self.length_bits);
            assert(padded(msg) =~= big + trailer@);
            assert(big.len() % 64 == 56);
            lemma_absorb_final_block(state::init(), big, trailer@);
            lemma_absorb_blocks_take(state::init(), msg, c);
            lemma_absorb_blocks_split(state::init(), msg.take(c), fed);
            assert(big.skip(big.len() - 56) =~= fed.skip(fed.len() - 56));
            assert(block@ == fed.skip(fed.len() - 56) + trailer@);
            assert(m.state == absorb_blocks(state::init(), padded(msg)));
        }
        write_u32_be(out, 0, m.state.h0);
        write_u32_be(out, 4, m.state.h1);
        write_u32_be(out, 8, m.state.h2);
        write_u32_be(out, 12, m.state.h3);
        write_u32_be(out, 16, m.state.h4);
        proof {
            assert(out@ =~= state_bytes(m.state) + old(out)@.skip(20));
        }
    }

    /// Compute the digest as a fresh 20-byte vector.
    pub fn finish(&self) -> (r: Vec<u8>)
        requires
            self.wf(),
        ensures
            r@ == sha1_of(self@),
    {
        let mut buf: Vec<u8> = vec![0u8; 20];
        self.output(&mut buf);
        proof {
            assert(sha1_of(self@) + Seq::<u8>::empty() =~= sha1_of(self@));
        }
        buf
    }

    /// The digest as a 40-character lowercase hex string.
    pub fn hexdigest(&self) -> (r: String)
        requires
            self.wf(),
        ensures
            r@ == hex_of(sha1_of(self@)),
            r@.len() == 40,
    {
        let d = self.finish();
        proof {
            util::lemma_hex_of_len(d@);
        }
        to_hex(d.as_slice())
    }

    /// The bytes of the trailing partial block currently buffered.
    pub closed spec fn buffered(self) -> Seq<u8> {
        self.buffer.contents()
    }

    /// The engine's current chaining value.
    pub closed spec fn chaining(self) -> Sha1State {
        self.state
    }
}

impl Default for Sha1 {
    /// A fresh engine, as `new` creates it.
    fn default() -> (r: Sha1)
        ensures
            r.wf(),
            r@ == Seq::<u8>::empty(),
    {
        Sha1::new()
    }
}

/// Chunking invariance: however a stream is split across `write` calls, the
/// engine's abstract value is the concatenation of the chunks, and the
/// digest is a function of that value alone.  Splitting `s` at any point
/// therefore yields the digest of `s` itself.
pub proof fn lemma_chunking_invariance(s: Seq<u8>, i: int)
    requires
        0 <= i <= s.len(),
    ensures
        s.take(i) + s.skip(i) == s,
        sha1_of(s.take(i) + s.skip(i)) == sha1_of(s),
{
    assert(s.take(i) + s.skip(i) =~= s);
}

/// The digest is determined by the bytes written alone: two engines with
/// equal abstract values — a fresh one and a reset one, say, or one queried
/// twice without intervening writes — yield the same digest.
pub proof fn lemma_view_determines_digest(a: Sha1, b: Sha1)
    requires
        a@ == b@,
    ensures
        sha1_of(a@) == sha1_of(b@),
{
}

/// Block boundary behaviour: once the bytes written reach a multiple of the
/// block size, the buffer is empty — never full-and-pending — and the
/// chaining value is the fold of exactly those complete blocks.  For a
/// single block, that is one compression call.
pub proof fn lemma_block_boundary(e: Sha1)
    requires
        e.wf(),
        e@.len() % 64 == 0,
    ensures
        e.buffered() == Seq::<u8>::empty(),
        e.chaining() == absorb_blocks(state::init(), e@),
        e@.len() == 64 ==> e.chaining() == state::compress(state::init(), e@),
{
    assert(e@.skip(e@.len() as int) =~= Seq::<u8>::empty());
    if e@.len() == 64 {
        util::lemma_absorb_blocks_single(state::init(), e@);
    }
}

} // verus!
