use json2splunk::decoder::LossyUtf8Reader;

fn decode_all(chunks: &[&[u8]], read_size: usize) -> Vec<u8> {
    let mut r = LossyUtf8Reader::new();
    let mut out = Vec::new();
    for chunk in chunks {
        r.feed_chunk(chunk);
        loop {
            let piece = r.read(read_size);
            if piece.is_empty() {
                break;
            }
            out.extend(piece);
        }
    }
    out
}

#[test]
fn valid_utf8_passes_through() {
    let out = decode_all(&[b"hello ", "wörld".as_bytes()], 1024);
    assert_eq!(out, "hello wörld".as_bytes());
}

#[test]
fn bom_and_nul_are_stripped() {
    let out = decode_all(&[b"\xEF\xBB\xBFa\x00b"], 1024);
    assert_eq!(out, b"ab");
}

#[test]
fn invalid_bytes_become_replacement() {
    let out = decode_all(&[b"a\xFFb"], 1024);
    assert_eq!(out, "a\u{FFFD}b".as_bytes());
}

#[test]
fn output_clean_for_arbitrary_chunking() {
    let chunks: [&[u8]; 4] = [b"\x00\xEF\xBB", b"\xBF xyz", b"\xFF\xFE", b"ok\x00"];
    for read_size in [1usize, 2, 3, 1024] {
        let out = decode_all(&chunks, read_size);
        assert!(!out.contains(&0u8));
        let text = String::from_utf8(out).expect("decoder output must be valid text");
        assert!(!text.chars().any(|c| c == '\u{feff}'));
    }
}

#[test]
fn serves_in_small_reads_with_carry_over() {
    let mut r = LossyUtf8Reader::new();
    r.feed_chunk(b"abcdef");
    assert_eq!(r.read(2), b"ab");
    assert_eq!(r.read(3), b"cde");
    assert_eq!(r.read(10), b"f");
    assert_eq!(r.read(10), b"");
    assert_eq!(r.pending(), 0);
}
