use sha1_hasher::Sha1;
use sha1_hasher::to_hex;

#[test]
fn test_simple() {
    let mut m = Sha1::new();

    let tests = [
        (
            "The quick brown fox jumps over the lazy dog",
            "2fd4e1c67a2d28fced849ee1bb76e7391b93eb12",
        ),
        (
            "The quick brown fox jumps over the lazy cog",
            "de9f2c7fd25e1b3afad3e85a0bd17d9b100db4b3",
        ),
        ("", "da39a3ee5e6b4b0d3255bfef95601890afd80709"),
        ("testing\n", "9801739daae44ec5293d4e1f53d3f4d2d426d91c"),
        (
            "xxxxxxxxxxxxxxxxxxxxxxxxxxxxxxxxxxxxxxxxxxxxxxxxxxxxxxxxx",
            "025ecbd5d70f8fb3c5457cd96bab13fda305dc59",
        ),
    ];

    for &(s, ref h) in tests.iter() {
        let data = s.as_bytes();

        m.reset();
        m.write(data).unwrap();
        let hh = m.hexdigest();

        assert_eq!(hh.len(), h.len());
        assert_eq!(&*hh, *h);
    }
}

#[test]
fn test_dirty_run() {
    let mut m = Sha1::new();

    m.write(b"123").unwrap();
    let out1 = m.finish();

    m.write(b"123").unwrap();
    let out2 = m.finish();

    assert!(out1 != out2);
    assert_eq!(&*to_hex(&*out1), "40bd001563085fc35165329ea1ff5c5ecbdbbeef");
    assert_eq!(&*to_hex(&*out2), "601f1889667efaebb33b8c12572835da3f027f78");
}

#[test]
fn chunking_invariance() {
    let mut data = Vec::new();
    for i in 0..200u32 {
        data.push((i * 7 + 3) as u8);
    }

    let mut whole = Sha1::new();
    whole.write(&data).unwrap();
    let expected = whole.finish();

    for &chunk in [1usize, 3, 63, 64, 65, 127, 128].iter() {
        let mut m = Sha1::new();
        let mut start = 0;
        while start < data.len() {
            let end = if start + chunk < data.len() { start + chunk } else { data.len() };
            m.write(&data[start..end]).unwrap();
            start = end;
        }
        assert_eq!(m.finish(), expected);
    }
}

#[test]
fn digest_is_idempotent() {
    let mut m = Sha1::new();
    m.write(b"hello ").unwrap();

    let d1 = m.finish();
    let d2 = m.finish();
    let d3 = m.finish();
    assert_eq!(d1, d2);
    assert_eq!(d2, d3);

    // The engine stays usable: continuing equals hashing the concatenation.
    m.write(b"world").unwrap();
    let continued = m.finish();
    let mut fresh = Sha1::new();
    fresh.write(b"hello world").unwrap();
    assert_eq!(continued, fresh.finish());
}

#[test]
fn reset_equals_fresh() {
    let s = b"some bytes that are going to be discarded";
    let mut m = Sha1::new();
    m.write(s).unwrap();
    m.reset();
    m.write(b"kept").unwrap();

    let mut fresh = Sha1::new();
    fresh.write(b"kept").unwrap();

    assert_eq!(m.finish(), fresh.finish());
    assert_eq!(m.hexdigest(), fresh.hexdigest());
}

#[test]
fn output_writes_twenty_bytes() {
    let mut m = Sha1::new();
    m.write(b"The quick brown fox jumps over the lazy dog").unwrap();
    let mut out = vec![0u8; 20];
    m.output(&mut out);
    assert_eq!(
        to_hex(&out),
        "2fd4e1c67a2d28fced849ee1bb76e7391b93eb12"
    );
    assert_eq!(m.hexdigest().len(), 40);

    // A larger buffer gets the digest in its first 20 bytes; the rest stays.
    let mut wide = vec![0x77u8; 24];
    m.output(&mut wide);
    assert_eq!(&wide[..20], &out[..]);
    assert_eq!(&wide[20..], &[0x77u8; 4]);
}

#[test]
fn repeated_writes_known_answer() {
    let mut m = Sha1::new();
    let s = "The quick brown fox jumps over the lazy dog.";
    for _ in 0..1000 {
        m.write(s.as_bytes()).unwrap();
    }
    assert_eq!(m.hexdigest(), "7ca27655f67fceaa78ed2e645a81c7f1d6e249d2");
}

#[test]
fn empty_writes_are_no_ops() {
    let mut m = Sha1::new();
    m.write(b"").unwrap();
    m.write(b"abc").unwrap();
    m.write(b"").unwrap();
    assert_eq!(m.hexdigest(), "a9993e364706816aba3e25717850c26c9cd0d89d");
}
