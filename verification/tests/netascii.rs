use tftp_rs::netascii::{NetasciiDecoder, NetasciiEncoder};

fn enc(input: &[u8], native_crlf: bool) -> Vec<u8> {
    enc_chunks(input, native_crlf, 512)
}

fn enc_chunks(input: &[u8], native_crlf: bool, chunk: usize) -> Vec<u8> {
    let mut e = NetasciiEncoder::with_newline(native_crlf);
    let mut out = Vec::new();
    let mut pos = 0;
    loop {
        while e.wants_input() {
            let end = (pos + chunk).min(input.len());
            e.supply(&input[pos..end]);
            pos = end;
        }
        // a small buffer shows that the rest is not lost
        let part = e.read(7);
        if part.is_empty() {
            break;
        }
        out.extend_from_slice(&part);
    }
    out
}

fn dec(chunks: &[&[u8]], native_crlf: bool) -> Vec<u8> {
    let mut out: Vec<u8> = Vec::new();
    let mut d = NetasciiDecoder::with_newline(native_crlf);
    for c in chunks {
        out.extend(d.write(c));
    }
    out.extend(d.finish());
    out
}

#[test]
fn netascii_encode_unix() {
    assert_eq!(enc(b"a\nb\rc\r\nd", false), b"a\r\nb\r\0c\r\0\r\nd");
    assert_eq!(enc(b"\r", false), b"\r\0");
    assert_eq!(enc(b"", false), b"");
}

#[test]
fn netascii_encode_windows_host() {
    assert_eq!(enc(b"a\r\nb\nc\rd", true), b"a\r\nb\r\nc\r\0d");
    assert_eq!(enc(b"x\r", true), b"x\r\0");
}

#[test]
fn netascii_decode_and_split_cr() {
    assert_eq!(dec(&[b"a\r\nb\r\0c"], false), b"a\nb\rc");
    assert_eq!(dec(&[b"a\r", b"\nb\r", b"\0c"], false), b"a\nb\rc");
    assert_eq!(dec(&[b"a\r\nb"], true), b"a\r\nb");
    assert_eq!(dec(&[b"end\r"], false), b"end\r");
}

#[test]
fn netascii_roundtrip() {
    let text = b"line1\nline2\r\n\r\rline5\n".to_vec();
    for native in [false, true] {
        let wire = enc(&text, native);
        let back = dec(&[&wire], native);
        // on a host with CR LF a single LF becomes CR LF
        if !native {
            assert_eq!(back, text);
        }
    }
}

#[test]
fn pieces_of_any_size_give_the_same() {
    let text = b"one\r\ntwo\rthree\n\r\n\r".to_vec();
    for native in [false, true] {
        let whole = enc_chunks(&text, native, 512);
        for n in 1..6 {
            assert_eq!(enc_chunks(&text, native, n), whole);
        }
        let back = dec(&[&whole], native);
        for cut in 0..whole.len() {
            assert_eq!(dec(&[&whole[..cut], &whole[cut..]], native), back);
        }
    }
}

#[test]
fn text_without_bare_lf_survives_on_a_crlf_host() {
    let text = b"line1\r\nline2\r\r\r\nend\r".to_vec();
    assert_eq!(dec(&[&enc(&text, true)], true), text);
}

#[test]
fn lone_cr_before_other_bytes_is_kept() {
    assert_eq!(dec(&[b"a\rb"], false), b"a\rb");
    assert_eq!(dec(&[b"\r\r\n"], false), b"\r\n");
    assert_eq!(enc(&[0x80, 0xff, b'\n'], false), [0x80, 0xff, b'\r', b'\n']);
}
