//! A fixed 64-byte block buffer and small byte-level helpers.
//!
//! `FixedBuffer64` accumulates raw bytes into a private 64-byte window;
//! whenever a complete window forms it hands the window to a caller-supplied
//! [`BlockProcessor`] and clears itself.  The buffer is useful for any hash
//! with a 64-byte block size.

use vstd::pervasive::VecAdditionalExecFns;
use vstd::prelude::*;
use vstd::string::StringExecFns;

verus! {

/// A consumer of completed 64-byte windows.
///
/// `absorb` is the mathematical effect of one window on the processor's
/// state; `process` is the executable operation, proved to realise exactly
/// that effect.
pub trait BlockProcessor: Sized {
    /// The effect of folding one 64-byte window into the state.
    spec fn absorb(self, block: Seq<u8>) -> Self;

    /// Fold one 64-byte window into the state.
    fn process(&mut self, block: &[u8])
        requires
            block@.len() == 64,
        ensures
            *final(self) == old(self).absorb(block@),
    ;
}

/// The processor state after folding in every complete 64-byte window of
/// `data`, front to back; a trailing remainder shorter than a window is
/// ignored.
pub open spec fn absorb_blocks<P: BlockProcessor>(p: P, data: Seq<u8>) -> P
    decreases data.len(),
{
    if data.len() < 64 {
        p
    } else {
        absorb_blocks(p.absorb(data.take(64)), data.skip(64))
    }
}

/// A sequence of `n` zero bytes.
pub open spec fn zeros(n: int) -> Seq<u8> {
    Seq::new(n as nat, |i: int| 0u8)
}

/// The four bytes of a 32-bit word, most significant first.
pub open spec fn be32(x: u32) -> Seq<u8> {
    seq![(x >> 24u32) as u8, (x >> 16u32) as u8, (x >> 8u32) as u8, x as u8]
}

/// The eight bytes of a 64-bit length field, most significant first.
pub open spec fn be64(x: u64) -> Seq<u8> {
    seq![
        (x >> 56u64) as u8,
        (x >> 48u64) as u8,
        (x >> 40u64) as u8,
        (x >> 32u64) as u8,
        (x >> 24u64) as u8,
        (x >> 16u64) as u8,
        (x >> 8u64) as u8,
        x as u8,
    ]
}

/// The lowercase hex digit for a value below 16.
pub open spec fn hex_digit(n: u8) -> char {
    if n == 0 {
        '0'
    } else if n == 1 {
        '1'
    } else if n == 2 {
        '2'
    } else if n == 3 {
        '3'
    } else if n == 4 {
        '4'
    } else if n == 5 {
        '5'
    } else if n == 6 {
        '6'
    } else if n == 7 {
        '7'
    } else if n == 8 {
        '8'
    } else if n == 9 {
        '9'
    } else if n == 10 {
        'a'
    } else if n == 11 {
        'b'
    } else if n == 12 {
        'c'
    } else if n == 13 {
        'd'
    } else if n == 14 {
        'e'
    } else {
        'f'
    }
}

/// The lowercase hex encoding of a byte sequence, two digits per byte, no
/// separators.
pub open spec fn hex_of(bytes: Seq<u8>) -> Seq<char>
    decreases bytes.len(),
{
    if bytes.len() == 0 {
        Seq::empty()
    } else {
        hex_of(bytes.drop_last()) + seq![
            hex_digit((bytes.last() / 16) as u8),
            hex_digit((bytes.last() % 16) as u8),
        ]
    }
}

/// Hex encoding yields exactly two characters per byte.
pub proof fn lemma_hex_of_len(bytes: Seq<u8>)
    ensures
        hex_of(bytes).len() == 2 * bytes.len(),
    decreases bytes.len(),
{
    if bytes.len() > 0 {
        lemma_hex_of_len(bytes.drop_last());
    }
}

/// How many zero bytes `standard_padding` inserts after the marker byte when
/// `t` bytes are buffered and `rem` bytes are to be left free.
pub open spec fn pad_zero_count(t: int, rem: int) -> int {
    (127 - rem - t) % 64
}

/// Folding in the complete blocks of `x + y`, where `x` is itself a whole
/// number of blocks, folds in the blocks of `x` and then those of `y`.
pub proof fn lemma_absorb_blocks_split<P: BlockProcessor>(p: P, x: Seq<u8>, y: Seq<u8>)
    requires
        x.len() % 64 == 0,
    ensures
        absorb_blocks(p, x + y) == absorb_blocks(absorb_blocks(p, x), y),
    decreases x.len(),
{
    if x.len() == 0 {
        assert(x + y =~= y);
    } else {
        assert((x + y).take(64) =~= x.take(64));
        assert((x + y).skip(64) =~= x.skip(64) + y);
        lemma_absorb_blocks_split(p.absorb(x.take(64)), x.skip(64), y);
    }
}

/// Feeding exactly one complete window absorbs exactly that window.
pub proof fn lemma_absorb_blocks_single<P: BlockProcessor>(p: P, block: Seq<u8>)
    requires
        block.len() == 64,
    ensures
        absorb_blocks(p, block) == p.absorb(block),
{
    assert(block.take(64) =~= block);
    assert(absorb_blocks(p, block) == absorb_blocks(p.absorb(block.take(64)), block.skip(64)));
    assert(absorb_blocks(p.absorb(block), block.skip(64)) == p.absorb(block));
}

/// A trailing remainder shorter than a window does not change the fold.
pub proof fn lemma_absorb_blocks_take<P: BlockProcessor>(p: P, x: Seq<u8>, n: int)
    requires
        n % 64 == 0,
        0 <= n <= x.len(),
        x.len() - n < 64,
    ensures
        absorb_blocks(p, x) == absorb_blocks(p, x.take(n)),
{
    assert(x =~= x.take(n) + x.skip(n));
    lemma_absorb_blocks_split(p, x.take(n), x.skip(n));
}

/// A 64-byte storage window plus a fill offset.
///
/// Bytes `[0, offset)` hold valid unconsumed input; the rest of the window is
/// scratch.  The buffer is never full at rest: a completed window is handed
/// to the processor at once and the offset returns to 0.
#[derive(Clone, Copy)]
pub struct FixedBuffer64 {
    buffer: [u8; 64],
    buffer_idx: usize,
}

impl FixedBuffer64 {
    /// The unconsumed bytes currently buffered.
    pub closed spec fn contents(self) -> Seq<u8> {
        self.buffer@.take(self.buffer_idx as int)
    }

    /// The fill offset never exceeds the window size.
    pub closed spec fn wf(self) -> bool {
        self.buffer_idx <= 64
    }

    /// Create an empty buffer.
    pub fn new() -> (r: FixedBuffer64)
        ensures
            r.wf(),
            r.contents() == Seq::<u8>::empty(),
    {
        let r = FixedBuffer64 { buffer: [0u8; 64], buffer_idx: 0 };
        proof {
            assert(r.contents() =~= Seq::<u8>::empty());
        }
        r
    }

    /// Drop any buffered bytes; only the offset matters, the window is not
    /// cleared.
    pub fn reset(&mut self)
        ensures
            final(self).wf(),
            final(self).contents() == Seq::<u8>::empty(),
    {
        self.buffer_idx = 0;
        proof {
            assert(self.contents() =~= Seq::<u8>::empty());
        }
    }

    /// Copy `data[from..to]` into the window, advancing the offset.
    fn fill(&mut self, data: &[u8], from: usize, to: usize)
        requires
            old(self).wf(),
            from <= to <= data@.len(),
            old(self).contents().len() + (to - from) <= 64,
        ensures
            final(self).wf(),
            final(self).contents() == old(self).contents() + data@.subrange(
                from as int,
                to as int,
            ),
    {
        let mut j = from;
        while j < to
            invariant
                from <= j <= to <= data@.len(),
                self.wf(),
                self.buffer_idx == old(self).buffer_idx + (j - from),
                self.buffer_idx + (to - j) <= 64,
                self.contents() == old(self).contents() + data@.subrange(from as int, j as int),
            decreases to - j,
        {
            let ghost prev = *self;
            self.buffer[self.buffer_idx] = data[j];
            self.buffer_idx = self.buffer_idx + 1;
            proof {
                assert(self.contents() =~= prev.contents() + seq![data@[j as int]]);
                assert(prev.contents() + seq![data@[j as int]] =~= old(self).contents()
                    + data@.subrange(from as int, j + 1));
            }
            j = j + 1;
        }
        proof {
            assert(self.contents() =~= old(self).contents() + data@.subrange(
                from as int,
                to as int,
            ));
        }
    }

    /// Append `bytes` to the buffered window; room must remain.
    pub fn next(&mut self, bytes: &[u8])
        requires
            old(self).wf(),
            old(self).contents().len() + bytes@.len() <= 64,
        ensures
            final(self).wf(),
            final(self).contents() == old(self).contents() + bytes@,
    {
        self.fill(bytes, 0, bytes.len());
        proof {
            assert(bytes@.subrange(0, bytes@.len() as int) =~= bytes@);
        }
    }

    /// Zero-fill the window up to offset `idx`.
    pub fn zero_until(&mut self, idx: usize)
        requires
            old(self).wf(),
            old(self).contents().len() <= idx <= 64,
        ensures
            final(self).wf(),
            final(self).contents() == old(self).contents() + zeros(
                idx - old(self).contents().len(),
            ),
    {
        while self.buffer_idx < idx
            invariant
                self.wf(),
                old(self).buffer_idx <= self.buffer_idx <= idx <= 64,
                self.contents() == old(self).contents() + zeros(
                    self.buffer_idx - old(self).buffer_idx,
                ),
            decreases idx - self.buffer_idx,
        {
            let ghost prev = *self;
            self.buffer[self.buffer_idx] = 0;
            self.buffer_idx = self.buffer_idx + 1;
            proof {
                assert(self.contents() =~= prev.contents() + seq![0u8]);
                assert(prev.contents() + seq![0u8] =~= old(self).contents() + zeros(
                    self.buffer_idx - old(self).buffer_idx,
                ));
            }
        }
    }

    /// Hand out a copy of the completed window and clear the buffer.
    pub fn full_buffer(&mut self) -> (r: Vec<u8>)
        requires
            old(self).wf(),
            old(self).contents().len() == 64,
        ensures
            final(self).wf(),
            final(self).contents() == Seq::<u8>::empty(),
            r@ == old(self).contents(),
    {
        let mut out: Vec<u8> = Vec::new();
        for i in 0..64
            invariant
                out@ == self.buffer@.take(i as int),
                *self == *old(self),
        {
            out.push(self.buffer[i]);
        }
        self.buffer_idx = 0;
        proof {
            assert(out@ =~= old(self).contents());
            assert(self.contents() =~= Seq::<u8>::empty());
        }
        out
    }

    /// Consume `data` fully, handing each completed 64-byte window to `p` as
    /// it forms and buffering the remainder.
    ///
    /// A window comes either from buffered remainder plus new bytes, or
    /// directly from `data` without copying.  Afterwards `p` has absorbed
    /// every complete window of the combined stream and the buffer holds the
    /// stream's tail.
    pub fn input<P: BlockProcessor>(&mut self, data: &[u8], p: &mut P)
        requires
            old(self).wf(),
            old(self).contents().len() < 64,
        ensures
            final(self).wf(),
            final(self).contents().len() < 64,
            ({
                let all = old(self).contents() + data@;
                *final(p) == absorb_blocks(*old(p), all) && final(self).contents() == all.skip(
                    all.len() - (all.len() % 64),
                )
            }),
    {
        let ghost all = old(self).contents() + data@;
        let ghost k = old(self).contents().len() as int;
        let mut i: usize = 0;
        if self.buffer_idx != 0 {
            let buffer_remaining = 64 - self.buffer_idx;
            if data.len() >= buffer_remaining {
                self.fill(data, 0, buffer_remaining);
                proof {
                    assert(self.contents().len() == 64);
                    assert(self.buffer_idx == 64);
                    assert(self.buffer@ =~= self.contents());
                    assert(self.contents() =~= all.take(64));
                }
                self.buffer_idx = 0;
                proof {
                    assert(self.buffer@ =~= all.take(64));
                    assert(self.contents() =~= Seq::<u8>::empty());
                }
                p.process(self.buffer.as_slice());
                i = buffer_remaining;
                proof {
                    lemma_absorb_blocks_single(*old(p), all.take(64));
                }
            } else {
                self.fill(data, 0, data.len());
                proof {
                    assert(data@.subrange(0, data@.len() as int) =~= data@);
                    assert(all.len() < 64);
                    assert(all.skip(all.len() - (all.len() % 64)) =~= all);
                }
                return ;
            }
        } else {
            proof {
                assert(all.take(0).len() == 0);
                assert(absorb_blocks(*old(p), all.take(0)) == *old(p));
            }
        }
        while data.len() - i >= 64
            invariant
                self.wf(),
                self.contents().len() == 0,
                i <= data@.len(),
                all == old(self).contents() + data@,
                k == old(self).contents().len(),
                (k + i) % 64 == 0,
                *p == absorb_blocks(*old(p), all.take(k + i)),
            decreases data@.len() - i,
        {
            let block = vstd::slice::slice_subrange(data, i, i + 64);
            proof {
                assert(block@ =~= all.subrange(k + i, k + i + 64));
                assert(all.take(k + i + 64) =~= all.take(k + i) + block@);
                lemma_absorb_blocks_split(*old(p), all.take(k + i), block@);
                lemma_absorb_blocks_single(absorb_blocks(*old(p), all.take(k + i)), block@);
            }
            p.process(block);
            i = i + 64;
        }
        let ghost consumed = k + i;
        self.fill(data, i, data.len());
        proof {
            assert(self.contents() =~= all.skip(consumed));
            assert(all.len() - consumed < 64);
            assert(all.len() % 64 == all.len() - consumed);
            lemma_absorb_blocks_take(*old(p), all, consumed);
            assert(all.take(consumed).len() == consumed);
        }
    }

    /// Insert the standard padding: a single `0x80` marker byte, then zero
    /// fill — through a full window and one processing call if fewer than
    /// `rem` bytes remain free — leaving exactly `rem` bytes of room for
    /// trailing metadata.
    pub fn standard_padding<P: BlockProcessor>(&mut self, rem: usize, p: &mut P)
        requires
            old(self).wf(),
            old(self).contents().len() < 64,
            1 <= rem <= 64,
        ensures
            final(self).wf(),
            final(self).contents().len() == 64 - rem,
            ({
                let fed = old(self).contents() + seq![0x80u8] + zeros(
                    pad_zero_count(old(self).contents().len() as int, rem as int),
                );
                *final(p) == absorb_blocks(*old(p), fed) && final(self).contents() == fed.skip(
                    fed.len() - (64 - rem),
                )
            }),
    {
        let ghost t = old(self).contents().len() as int;
        let ghost fed = old(self).contents() + seq![0x80u8] + zeros(
            pad_zero_count(t, rem as int),
        );
        let marker = [0x80u8; 1];
        proof {
            assert(marker@ =~= seq![0x80u8]);
        }
        self.next(marker.as_slice());
        if self.remaining() < rem {
            self.zero_until(64);
            proof {
                assert(pad_zero_count(t, rem as int) == 127 - rem - t);
                assert(self.contents() =~= fed.take(64));
            }
            let block = self.full_buffer();
            p.process(block.as_slice());
            self.zero_until(64 - rem);
            proof {
                lemma_absorb_blocks_take(*old(p), fed, 64);
                lemma_absorb_blocks_single(*old(p), fed.take(64));
                assert(self.contents() =~= fed.skip(fed.len() - (64 - rem)));
            }
        } else {
            self.zero_until(64 - rem);
            proof {
                assert(pad_zero_count(t, rem as int) == 63 - rem - t);
                assert(fed.len() < 64);
                assert(self.contents() =~= fed);
                assert(fed.skip(fed.len() - (64 - rem)) =~= fed);
            }
        }
    }

    /// How many more bytes fit before the window is complete.
    pub fn remaining(&self) -> (r: usize)
        requires
            self.wf(),
        ensures
            r == 64 - self.contents().len(),
    {
        64 - self.buffer_idx
    }

    /// The window size in bytes.
    pub fn size(&self) -> (r: usize)
        ensures
            r == 64,
    {
        64
    }
}

/// Add a byte count, scaled to bits, to a running bit count.  The caller
/// rules out numeric overflow beforehand.
pub fn add_bytes_to_bits(bits: u64, bytes: u64) -> (r: u64)
    requires
        bytes < 0x2000000000000000,
        bits + bytes * 8 <= u64::MAX,
    ensures
        r == bits + bytes * 8,
{
    bits + bytes * 8
}

/// Write a 32-bit word in big-endian format into `dst` at offset `pos`,
/// which must leave room for 4 bytes.
pub fn write_u32_be(dst: &mut Vec<u8>, pos: usize, input: u32)
    requires
        pos + 4 <= old(dst)@.len(),
    ensures
        final(dst)@ == old(dst)@.take(pos as int) + be32(input) + old(dst)@.skip(pos as int + 4),
{
    // Reading the length establishes that the offsets below fit in usize.
    let _ = dst.len();
    dst.set(pos, (input >> 24) as u8);
    dst.set(pos + 1, (input >> 16) as u8);
    dst.set(pos + 2, (input >> 8) as u8);
    dst.set(pos + 3, input as u8);
    proof {
        assert(dst@ =~= old(dst)@.take(pos as int) + be32(input) + old(dst)@.skip(
            pos as int + 4,
        ));
    }
}

/// The lowercase hex digit for `n < 16`, as a one-character string.
fn hex_digit_str(n: u8) -> (r: &'static str)
    requires
        n < 16,
    ensures
        r@ == seq![hex_digit(n)],
{
    proof {
        reveal_strlit("0");
        reveal_strlit("1");
        reveal_strlit("2");
        reveal_strlit("3");
        reveal_strlit("4");
        reveal_strlit("5");
        reveal_strlit("6");
        reveal_strlit("7");
        reveal_strlit("8");
        reveal_strlit("9");
        reveal_strlit("a");
        reveal_strlit("b");
        reveal_strlit("c");
        reveal_strlit("d");
        reveal_strlit("e");
        reveal_strlit("f");
    }
    let r: &'static str = if n == 0 {
        "0"
    } else if n == 1 {
        "1"
    } else if n == 2 {
        "2"
    } else if n == 3 {
        "3"
    } else if n == 4 {
        "4"
    } else if n == 5 {
        "5"
    } else if n == 6 {
        "6"
    } else if n == 7 {
        "7"
    } else if n == 8 {
        "8"
    } else if n == 9 {
        "9"
    } else if n == 10 {
        "a"
    } else if n == 11 {
        "b"
    } else if n == 12 {
        "c"
    } else if n == 13 {
        "d"
    } else if n == 14 {
        "e"
    } else {
        "f"
    };
    proof {
        assert(r@ =~= seq![hex_digit(n)]);
    }
    r
}

/// Encode a byte slice as lowercase hex, two characters per byte.
pub fn to_hex(input: &[u8]) -> (r: String)
    ensures
        r@ == hex_of(input@),
{
    let n = input.len();
    let mut s = String::new();
    for i in 0..n
        invariant
            n == input@.len(),
            s@ == hex_of(input@.take(i as int)),
    {
        let b = input[i];
        proof {
            assert((b >> 4) < 16 && (b & 0x0f) < 16 && (b >> 4) == b / 16 && (b & 0x0f) == b % 16)
                by (bit_vector);
        }
        s.append(hex_digit_str(b >> 4));
        s.append(hex_digit_str(b & 0x0f));
        proof {
            let t = input@.take(i + 1);
            assert(t.drop_last() =~= input@.take(i as int));
            assert(t.last() == b);
            assert(s@ =~= hex_of(t));
        }
    }
    proof {
        assert(input@.take(n as int) =~= input@);
    }
    s
}

} // verus!
