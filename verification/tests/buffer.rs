use sha1_hasher::BlockProcessor;
use sha1_hasher::FixedBuffer64;
use sha1_hasher::Sha1State;
use sha1_hasher::add_bytes_to_bits;
use sha1_hasher::to_hex;
use sha1_hasher::write_u32_be;

#[test]
fn block_boundary_drains_buffer() {
    // Writing exactly 64 bytes triggers exactly one compression call and
    // leaves the buffer empty, not full-and-pending.
    let mut fb = FixedBuffer64::new();
    let mut st = Sha1State::new();
    let block = [0x5au8; 64];

    fb.input(&block, &mut st);
    assert_eq!(fb.remaining(), 64);
    assert_eq!(fb.size(), 64);

    // The state advanced by exactly one compression of that block.
    let mut expected = Sha1State::new();
    expected.process(&block);
    assert!(st == expected);
    assert!(st != Sha1State::new());
}

#[test]
fn input_buffers_partial_blocks() {
    let mut fb = FixedBuffer64::new();
    let mut st = Sha1State::new();

    fb.input(&[1u8; 10], &mut st);
    assert_eq!(fb.remaining(), 54);
    // No complete window yet, so no compression has happened.
    assert!(st == Sha1State::new());

    fb.input(&[2u8; 54], &mut st);
    assert_eq!(fb.remaining(), 64);
    assert!(st != Sha1State::new());
}

#[test]
fn next_and_zero_until_fill_the_window() {
    let mut fb = FixedBuffer64::new();
    fb.next(&[1, 2, 3]);
    assert_eq!(fb.remaining(), 61);
    fb.zero_until(64);
    assert_eq!(fb.remaining(), 0);

    let window = fb.full_buffer();
    assert_eq!(fb.remaining(), 64);
    assert_eq!(window.len(), 64);
    assert_eq!(&window[..3], &[1, 2, 3]);
    assert!(window[3..].iter().all(|&b| b == 0));
}

#[test]
fn reset_discards_buffered_bytes() {
    let mut fb = FixedBuffer64::new();
    fb.next(&[9u8; 17]);
    assert_eq!(fb.remaining(), 47);
    fb.reset();
    assert_eq!(fb.remaining(), 64);
}

#[test]
fn standard_padding_leaves_room() {
    // An empty buffer holds the 0x80 marker plus zero fill after padding,
    // with exactly 8 bytes of room and no compression call.
    let mut fb = FixedBuffer64::new();
    let mut st = Sha1State::new();
    fb.standard_padding(8, &mut st);
    assert_eq!(fb.remaining(), 8);
    assert!(st == Sha1State::new());

    fb.next(&[0u8; 8]);
    let window = fb.full_buffer();
    assert_eq!(window[0], 0x80);
    assert!(window[1..].iter().all(|&b| b == 0));
}

#[test]
fn standard_padding_spills_into_extra_block() {
    // With fewer than 8 free bytes left, padding completes the window,
    // hands it to the processor, and zero-fills the next one.
    let mut fb = FixedBuffer64::new();
    let mut st = Sha1State::new();
    fb.next(&[7u8; 60]);
    fb.standard_padding(8, &mut st);
    assert_eq!(fb.remaining(), 8);
    assert!(st != Sha1State::new());
}

#[test]
fn add_bytes_to_bits_scales() {
    assert_eq!(add_bytes_to_bits(0, 0), 0);
    assert_eq!(add_bytes_to_bits(16, 3), 40);
    assert_eq!(add_bytes_to_bits(0, 0x1fff_ffff_ffff_ffff), 0xffff_ffff_ffff_fff8);
}

#[test]
fn to_hex_encodes_lowercase_pairs() {
    assert_eq!(to_hex(&[]), "");
    assert_eq!(to_hex(&[0x00]), "00");
    assert_eq!(to_hex(&[0x00, 0xab, 0xff, 0x1e]), "00abff1e");
}

#[test]
fn write_u32_be_is_big_endian() {
    let mut v = vec![0xeeu8; 6];
    write_u32_be(&mut v, 1, 0x0a0b0c0d);
    assert_eq!(v, vec![0xee, 0x0a, 0x0b, 0x0c, 0x0d, 0xee]);

    let mut w = vec![0u8; 4];
    write_u32_be(&mut w, 0, 0xffff_fffe);
    assert_eq!(w, vec![0xff, 0xff, 0xff, 0xfe]);
}
