//! The packets of TFTP (RFC 1350): building them and taking them apart.
use crate::error;
use crate::error::TftpError;
use crate::outside;
use crate::text;
use vstd::prelude::*;
use vstd::slice::{slice_subrange, slice_to_vec};
use vstd::utf8::*;

verus! {

/// A DATA packet carries at most this many bytes; one with fewer is the last.
pub const BLOCK_SIZE: usize = 512;

pub const OP_RRQ: u16 = 1;

pub const OP_WRQ: u16 = 2;

pub const OP_DATA: u16 = 3;

pub const OP_ACK: u16 = 4;

pub const OP_ERROR: u16 = 5;

/// Acknowledges options (RFC 2347). None are ever asked for here, so it is an error.
pub const OP_OACK: u16 = 6;

/// How the bytes of a file go over the wire. The `mail` mode is obsolete.
#[derive(Clone, Copy, Debug, PartialEq, Eq, Structural)]
pub enum Mode {
    /// Bytes as they are.
    Octet,
    /// Text: on the wire CR LF ends a line and CR NUL is a single CR.
    Netascii,
}

/// The name of a mode in a request.
pub open spec fn mode_name(m: Mode) -> Seq<char> {
    match m {
        Mode::Octet => "octet"@,
        Mode::Netascii => "netascii"@,
    }
}

/// A text with `A` to `Z` in lower case.
pub open spec fn ascii_lowered(s: Seq<char>) -> Seq<char> {
    s.map_values(|c: char| outside::ascii_lower(c))
}

/// The mode that a text names, in any mixture of upper and lower case.
pub open spec fn mode_named(s: Seq<char>) -> Option<Mode> {
    if ascii_lowered(s) == "octet"@ {
        Some(Mode::Octet)
    } else if ascii_lowered(s) == "netascii"@ {
        Some(Mode::Netascii)
    } else {
        None
    }
}

/// The text with `A` to `Z` in lower case.
pub fn ascii_lowercase(s: &str) -> (r: String)
    ensures
        r@ == ascii_lowered(s@),
{
    let v = text::chars_of(s);
    let mut out = String::new();
    let mut i: usize = 0;
    while i < v.len()
        invariant
            i <= v.len(),
            v@ == s@,
            out@ == ascii_lowered(s@.take(i as int)),
        decreases v.len() - i,
    {
        let c: char = v[i];
        let low: char = if 'A' <= c && c <= 'Z' { (c as u8 + 32) as char } else { c };
        out.push(low);
        i = i + 1;
        assert(out@ =~= ascii_lowered(s@.take(i as int)));
    }
    assert(s@.take(i as int) =~= s@);
    out
}

impl Mode {
    /// The name of this mode in a request.
    pub fn as_str(self) -> (r: &'static str)
        ensures
            r@ == mode_name(self),
    {
        match self {
            Mode::Octet => "octet",
            Mode::Netascii => "netascii",
        }
    }

    /// The mode that a text names; case does not matter.
    pub fn parse(s: &str) -> (r: Option<Mode>)
        ensures
            r == mode_named(s@),
    {
        let low = ascii_lowercase(s);
        if text::same_text(low.as_str(), "octet") {
            Some(Mode::Octet)
        } else if text::same_text(low.as_str(), "netascii") {
            Some(Mode::Netascii)
        } else {
            None
        }
    }
}

// ---------------------------------------------------------------- numbers on the wire
/// A 16-bit number, high byte first.
pub open spec fn be16(x: u16) -> Seq<u8> {
    seq![(x / 256) as u8, (x % 256) as u8]
}

/// The 16-bit number that stands at position `i`.
pub open spec fn word_at(buf: Seq<u8>, i: int) -> u16 {
    (buf[i] * 256 + buf[i + 1]) as u16
}

/// Reading a 16-bit number gives the one that was written.
pub proof fn lemma_word(x: u16, before: Seq<u8>, after: Seq<u8>)
    ensures
        word_at(before + be16(x) + after, before.len() as int) == x,
{
    let s = before + be16(x) + after;
    assert(s[before.len() as int] == (x / 256) as u8);
    assert(s[before.len() as int + 1] == (x % 256) as u8);
}

/// The operation code of a packet.
pub fn opcode_of(buf: &[u8]) -> (r: u16)
    requires
        buf.len() >= 2,
    ensures
        r == word_at(buf@, 0),
{
    buf[0] as u16 * 256 + buf[1] as u16
}

/// The block number of a DATA or ACK packet, the code of an ERROR packet.
pub fn block_of(buf: &[u8]) -> (r: u16)
    requires
        buf.len() >= 4,
    ensures
        r == word_at(buf@, 2),
{
    buf[2] as u16 * 256 + buf[3] as u16
}

/// Appends a 16-bit number, high byte first.
fn push_be16(v: &mut Vec<u8>, x: u16)
    ensures
        final(v)@ == old(v)@ + be16(x),
{
    v.push((x / 256) as u8);
    v.push((x % 256) as u8);
    assert(v@ =~= old(v)@ + be16(x));
}

// ---------------------------------------------------------------- building
/// A request to read or write `filename`.
pub open spec fn rq_packet(opcode: u16, filename: Seq<char>, mode: Mode) -> Seq<u8> {
    be16(opcode) + encode_utf8(filename) + seq![0u8] + encode_utf8(mode_name(mode)) + seq![0u8]
}

/// An acknowledgement of block `block`.
pub open spec fn ack_packet(block: u16) -> Seq<u8> {
    be16(OP_ACK) + be16(block)
}

/// Block `block` with its contents.
pub open spec fn data_packet(block: u16, payload: Seq<u8>) -> Seq<u8> {
    be16(OP_DATA) + be16(block) + payload
}

/// A report of an error.
pub open spec fn error_packet(code: u16, msg: Seq<char>) -> Seq<u8> {
    be16(OP_ERROR) + be16(code) + encode_utf8(msg) + seq![0u8]
}

/// Builds a request.
pub fn build_rq(opcode: u16, filename: &str, mode: Mode) -> (r: Vec<u8>)
    ensures
        r@ == rq_packet(opcode, filename@, mode),
{
    let mut buf: Vec<u8> = Vec::new();
    push_be16(&mut buf, opcode);
    text::push_bytes(&mut buf, filename.as_bytes());
    buf.push(0);
    text::push_bytes(&mut buf, mode.as_str().as_bytes());
    buf.push(0);
    assert(buf@ =~= rq_packet(opcode, filename@, mode));
    buf
}

/// Builds an acknowledgement.
pub fn build_ack(block: u16) -> (r: [u8; 4])
    ensures
        r@ == ack_packet(block),
{
    let r: [u8; 4] = [0, 4, (block / 256) as u8, (block % 256) as u8];
    assert(r@ =~= ack_packet(block));
    r
}

/// An acknowledgement as a vector.
pub fn ack_vec(block: u16) -> (r: Vec<u8>)
    ensures
        r@ == ack_packet(block),
{
    let a = build_ack(block);
    slice_to_vec(&a)
}

/// Builds a data packet.
pub fn build_data(block: u16, payload: &[u8]) -> (r: Vec<u8>)
    ensures
        r@ == data_packet(block, payload@),
{
    let mut buf: Vec<u8> = Vec::new();
    push_be16(&mut buf, OP_DATA);
    push_be16(&mut buf, block);
    text::push_bytes(&mut buf, payload);
    assert(buf@ =~= data_packet(block, payload@));
    buf
}

/// Builds an error packet.
pub fn build_error(code: u16, msg: &str) -> (r: Vec<u8>)
    ensures
        r@ == error_packet(code, msg@),
{
    let mut buf: Vec<u8> = Vec::new();
    push_be16(&mut buf, OP_ERROR);
    push_be16(&mut buf, code);
    text::push_bytes(&mut buf, msg.as_bytes());
    buf.push(0);
    assert(buf@ =~= error_packet(code, msg@));
    buf
}

// ---------------------------------------------------------------- taking apart
/// The bytes up to the first NUL, or all of them.
pub open spec fn until_nul(s: Seq<u8>) -> Seq<u8> {
    s.take(text::find(s, 0u8) as int)
}

/// The failure that an ERROR packet reports: code and text up to the first NUL.
pub open spec fn error_of(buf: Seq<u8>) -> error::ErrorView {
    if buf.len() < 4 {
        error::ErrorView::Protocol("короткий ERROR-пакет"@)
    } else {
        error::ErrorView::Remote(word_at(buf, 2), outside::utf8_lossy(until_nul(buf.skip(4))))
    }
}

/// The failure that an ERROR packet reports.
pub fn parse_error(buf: &[u8]) -> (r: TftpError)
    ensures
        r@ == error_of(buf@),
        buf.len() >= 4 && valid_utf8(until_nul(buf@.skip(4))) ==> r@ == error::ErrorView::Remote(
            word_at(buf@, 2),
            decode_utf8(until_nul(buf@.skip(4))),
        ),
{
    if buf.len() < 4 {
        return error::protocol("короткий ERROR-пакет");
    }
    let body = slice_subrange(buf, 4, buf.len());
    assert(body@ =~= buf@.skip(4));
    let end: usize = text::find_byte(body, 0);
    let msg = slice_subrange(body, 0, end);
    assert(msg@ =~= until_nul(buf@.skip(4)));
    TftpError::Remote(block_of(buf), outside::decode_lossy(msg))
}

/// The two fields of a request: the name up to its NUL, which must be there, and
/// the mode up to its NUL, which may be missing. The mode must not be empty.
/// Whatever follows (options of RFC 2347) is ignored.
pub open spec fn rq_fields(buf: Seq<u8>) -> Option<(Seq<u8>, Seq<u8>)> {
    let rest = buf.skip(2);
    let end = text::find(rest, 0u8) as int;
    let mode = until_nul(rest.skip(end + 1));
    if buf.len() < 2 || end >= rest.len() || mode.len() == 0 {
        None
    } else {
        Some((rest.take(end), mode))
    }
}

/// Finds the two fields of a request.
pub fn split_rq(buf: &[u8]) -> (r: Option<(Vec<u8>, Vec<u8>)>)
    ensures
        match r {
            Some(f) => rq_fields(buf@) == Some((f.0@, f.1@)),
            None => rq_fields(buf@) is None,
        },
{
    if buf.len() < 2 {
        return None;
    }
    let rest = slice_subrange(buf, 2, buf.len());
    assert(rest@ =~= buf@.skip(2));
    let end: usize = text::find_byte(rest, 0);
    if end >= rest.len() {
        return None;
    }
    let tail = slice_subrange(rest, end + 1, rest.len());
    assert(tail@ =~= rest@.skip(end + 1));
    let mode_end: usize = text::find_byte(tail, 0);
    let mode = slice_subrange(tail, 0, mode_end);
    assert(mode@ =~= until_nul(tail@));
    if mode_end == 0 {
        return None;
    }
    let name = slice_subrange(rest, 0, end);
    assert(name@ =~= rest@.take(end as int));
    Some((slice_to_vec(name), slice_to_vec(mode)))
}

/// A request's file name, and its mode in lower case.
pub open spec fn rq_texts(buf: Seq<u8>) -> Option<(Seq<char>, Seq<char>)> {
    match rq_fields(buf) {
        Some(f) => Some(
            (outside::utf8_lossy(f.0), outside::lowercase(outside::utf8_lossy(f.1))),
        ),
        None => None,
    }
}

/// The characters of a file name and a mode.
pub open spec fn rq_view(r: Option<(String, String)>) -> Option<(Seq<char>, Seq<char>)> {
    match r {
        Some(p) => Some((p.0@, p.1@)),
        None => None,
    }
}

/// A request's file name, and its mode in lower case.
pub fn parse_rq(buf: &[u8]) -> (r: Option<(String, String)>)
    ensures
        rq_view(r) == rq_texts(buf@),
        match (r, rq_fields(buf@)) {
            (Some(p), Some(f)) => {
                &&& valid_utf8(f.0) ==> p.0@ == decode_utf8(f.0)
                &&& valid_utf8(f.1) && is_ascii_chars(decode_utf8(f.1)) ==> p.1@ == ascii_lowered(
                    decode_utf8(f.1),
                )
            },
            (None, None) => true,
            _ => false,
        },
{
    match split_rq(buf) {
        None => None,
        Some((name, mode)) => {
            let filename = outside::decode_lossy(&name);
            let m = outside::decode_lossy(&mode);
            Some((filename, outside::to_lowercase(m.as_str())))
        },
    }
}

/// The reply to a request whose mode is not supported.
pub open spec fn mode_refusal(mode: Seq<char>) -> Seq<u8> {
    error_packet(
        4,
        if ascii_lowered(mode) == "mail"@ {
            "Mail mode is obsolete and not supported"@
        } else {
            "Unknown transfer mode (supported: octet, netascii)"@
        },
    )
}

/// The mode of a request, or the ERROR packet to answer it with.
pub fn accept_mode(mode: &str) -> (r: Result<Mode, Vec<u8>>)
    ensures
        match r {
            Ok(m) => mode_named(mode@) == Some(m),
            Err(reply) => mode_named(mode@) is None && reply@ == mode_refusal(mode@),
        },
{
    match Mode::parse(mode) {
        Some(m) => Ok(m),
        None => {
            let low = ascii_lowercase(mode);
            if text::same_text(low.as_str(), "mail") {
                Err(build_error(4, "Mail mode is obsolete and not supported"))
            } else {
                Err(build_error(4, "Unknown transfer mode (supported: octet, netascii)"))
            }
        },
    }
}

/// The reply to a packet whose operation code has no place at this point of a
/// transfer, and the failure it means.
pub open spec fn opcode_refusal(op: u16) -> (Seq<u8>, error::ErrorView) {
    (
        if op == OP_OACK {
            error_packet(8, "Options were not requested"@)
        } else {
            error_packet(4, "Illegal TFTP operation"@)
        },
        error::ErrorView::Protocol(
            "получен пакет с недопустимым кодом операции "@ + text::dec(op as nat),
        ),
    )
}

/// Refuses an operation code that has no place at this point of a transfer.
pub fn reject_opcode(op: u16) -> (r: (Vec<u8>, TftpError))
    ensures
        (r.0@, r.1@) == opcode_refusal(op),
{
    let reply = if op == OP_OACK {
        build_error(8, "Options were not requested")
    } else {
        build_error(4, "Illegal TFTP operation")
    };
    let mut m = "получен пакет с недопустимым кодом операции ".to_owned();
    text::push_dec(&mut m, op as u64);
    (reply, TftpError::Protocol(m))
}

// ---------------------------------------------------------------- laws
proof fn lemma_scalar_nul(c: char)
    ensures
        encode_scalar(c as u32).contains(0u8) <==> c == '\0',
{
    let s = c as u32;
    let e = encode_scalar(s);
    char_is_scalar(c);
    assert(s <= 0x7F ==> (s & 0x7F == 0 <==> s == 0)) by (bit_vector);
    assert((s & 0x7F) as u8 == 0 <==> s & 0x7F == 0) by (bit_vector);
    assert(0xC0u8 | ((s >> 6) & 0x1F) as u8 != 0) by (bit_vector);
    assert(0xE0u8 | ((s >> 12) & 0x0F) as u8 != 0) by (bit_vector);
    assert(0xF0u8 | ((s >> 18) & 0x7) as u8 != 0) by (bit_vector);
    assert(0x80u8 | (s & 0x3F) as u8 != 0) by (bit_vector);
    assert(0x80u8 | ((s >> 6) & 0x3F) as u8 != 0) by (bit_vector);
    assert(0x80u8 | ((s >> 12) & 0x3F) as u8 != 0) by (bit_vector);
    if c == '\0' {
        assert(e[0] == 0u8);
    }
}

/// Encoded text holds a NUL byte only where the text holds a NUL character.
pub proof fn lemma_no_nul(s: Seq<char>)
    requires
        !s.contains('\0'),
    ensures
        !encode_utf8(s).contains(0u8),
    decreases s.len(),
{
    if s.len() > 0 {
        assert(s[0] != '\0');
        let t = s.drop_first();
        assert forall|i: int| 0 <= i < t.len() implies t[i] != '\0' by {
            assert(t[i] == s[i + 1]);
        }
        lemma_no_nul(t);
        lemma_scalar_nul(s[0]);
        let a = encode_scalar(s[0] as u32);
        let b = encode_utf8(t);
        assert forall|i: int| 0 <= i < (a + b).len() implies (a + b)[i] != 0u8 by {
            if i < a.len() {
                assert(a.contains(a[i]));
            } else {
                assert(b.contains(b[i - a.len()]));
            }
        }
    }
}

proof fn lemma_until_nul(s: Seq<u8>, after: Seq<u8>)
    requires
        !s.contains(0u8),
    ensures
        text::find(s + seq![0u8] + after, 0u8) == s.len(),
        until_nul(s + seq![0u8] + after) == s,
{
    let t = s + seq![0u8] + after;
    assert forall|j: int| 0 <= j < s.len() implies t[j] != 0u8 by {
        assert(s.contains(s[j]));
    }
    text::lemma_find_is(t, 0u8, s.len() as int);
    assert(until_nul(t) =~= s);
}

/// The name of a mode is its own lower case, names the mode and holds no NUL.
pub proof fn lemma_mode_name(m: Mode)
    ensures
        mode_name(m).len() > 0,
        is_ascii_chars(mode_name(m)),
        !mode_name(m).contains('\0'),
        ascii_lowered(mode_name(m)) == mode_name(m),
        mode_named(mode_name(m)) == Some(m),
{
    reveal_strlit("octet");
    reveal_strlit("netascii");
    let s = mode_name(m);
    assert(ascii_lowered(s) =~= s);
    if m == Mode::Netascii {
        assert("octet"@.len() != "netascii"@.len());
    }
}

/// What a request holds can be read back from it: for every name without a NUL
/// character, the fields found in the packet are that name and the name of the mode,
/// which names the mode. Whatever bytes follow the packet (options) change nothing.
pub proof fn law_request_roundtrip(opcode: u16, filename: Seq<char>, mode: Mode, options: Seq<u8>)
    requires
        !filename.contains('\0'),
    ensures
        word_at(rq_packet(opcode, filename, mode) + options, 0) == opcode,
        rq_fields(rq_packet(opcode, filename, mode) + options) == Some(
            (encode_utf8(filename), encode_utf8(mode_name(mode))),
        ),
        decode_utf8(encode_utf8(filename)) == filename,
        decode_utf8(encode_utf8(mode_name(mode))) == mode_name(mode),
        mode_named(mode_name(mode)) == Some(mode),
{
    let p = rq_packet(opcode, filename, mode) + options;
    let name = encode_utf8(filename);
    let m = encode_utf8(mode_name(mode));
    lemma_mode_name(mode);
    lemma_no_nul(filename);
    lemma_no_nul(mode_name(mode));
    encode_utf8_decode_utf8(filename);
    encode_utf8_decode_utf8(mode_name(mode));
    lemma_word(opcode, Seq::empty(), p.skip(2));
    assert(p =~= Seq::<u8>::empty() + be16(opcode) + p.skip(2));
    let tail = m + seq![0u8] + options;
    assert(p.skip(2) =~= name + seq![0u8] + tail);
    lemma_until_nul(name, tail);
    assert(p.skip(2).skip(name.len() as int + 1) =~= tail);
    lemma_until_nul(m, options);
    assert(m.len() > 0) by {
        if m.len() == 0 {
            assert(decode_utf8(m).len() == 0);
        }
    }
    assert(p.skip(2).take(name.len() as int) =~= name);
}

/// What a data packet holds can be read back from it.
pub proof fn law_data_roundtrip(block: u16, payload: Seq<u8>)
    ensures
        data_packet(block, payload).len() == 4 + payload.len(),
        word_at(data_packet(block, payload), 0) == OP_DATA,
        word_at(data_packet(block, payload), 2) == block,
        data_packet(block, payload).skip(4) == payload,
{
    let p = data_packet(block, payload);
    lemma_word(OP_DATA, Seq::empty(), be16(block) + payload);
    assert(p =~= Seq::<u8>::empty() + be16(OP_DATA) + (be16(block) + payload));
    lemma_word(block, be16(OP_DATA), payload);
    assert(p.skip(4) =~= payload);
}

/// What an acknowledgement holds can be read back from it.
pub proof fn law_ack_roundtrip(block: u16)
    ensures
        ack_packet(block).len() == 4,
        word_at(ack_packet(block), 0) == OP_ACK,
        word_at(ack_packet(block), 2) == block,
{
    let p = ack_packet(block);
    lemma_word(OP_ACK, Seq::empty(), be16(block));
    assert(p =~= Seq::<u8>::empty() + be16(OP_ACK) + be16(block));
    lemma_word(block, be16(OP_ACK), Seq::empty());
    assert(p =~= be16(OP_ACK) + be16(block) + Seq::<u8>::empty());
}

/// The code and the text of an error packet can be read back from it, for every
/// text without a NUL character.
pub proof fn law_error_roundtrip(code: u16, msg: Seq<char>)
    requires
        !msg.contains('\0'),
    ensures
        error_packet(code, msg).len() >= 4,
        word_at(error_packet(code, msg), 0) == OP_ERROR,
        word_at(error_packet(code, msg), 2) == code,
        valid_utf8(until_nul(error_packet(code, msg).skip(4))),
        decode_utf8(until_nul(error_packet(code, msg).skip(4))) == msg,
{
    let p = error_packet(code, msg);
    let m = encode_utf8(msg);
    lemma_word(OP_ERROR, Seq::empty(), be16(code) + m + seq![0u8]);
    assert(p =~= Seq::<u8>::empty() + be16(OP_ERROR) + (be16(code) + m + seq![0u8]));
    lemma_word(code, be16(OP_ERROR), m + seq![0u8]);
    assert(p =~= be16(OP_ERROR) + be16(code) + (m + seq![0u8]));
    lemma_no_nul(msg);
    lemma_until_nul(m, Seq::empty());
    assert(p.skip(4) =~= m + seq![0u8] + Seq::<u8>::empty());
    encode_utf8_decode_utf8(msg);
    encode_utf8_valid_utf8(msg);
}

/// The bytes on the wire: two bytes for what a packet is, the higher first, then two for the
/// number of a block or the code of an error, then the data or a text that ends with zero.
pub proof fn law_bytes_on_the_wire(
    block: u16,
    payload: Seq<u8>,
    code: u16,
    msg: Seq<char>,
    name: Seq<char>,
    mode: Mode,
)
    ensures
        ack_packet(block) == seq![0u8, 4u8, (block / 256) as u8, (block % 256) as u8],
        data_packet(block, payload) == seq![0u8, 3u8, (block / 256) as u8, (block % 256) as u8]
            + payload,
        error_packet(code, msg) == seq![0u8, 5u8, (code / 256) as u8, (code % 256) as u8]
            + encode_utf8(msg) + seq![0u8],
        rq_packet(1, name, mode) == seq![0u8, 1u8] + encode_utf8(name) + seq![0u8] + encode_utf8(
            match mode {
                Mode::Octet => "octet"@,
                Mode::Netascii => "netascii"@,
            },
        ) + seq![0u8],
        rq_packet(2, name, mode) == seq![0u8, 2u8] + rq_packet(1, name, mode).skip(2),
{
    assert(be16(OP_ACK) =~= seq![0u8, 4u8]);
    assert(be16(OP_DATA) =~= seq![0u8, 3u8]);
    assert(be16(OP_ERROR) =~= seq![0u8, 5u8]);
    assert(be16(1) =~= seq![0u8, 1u8]);
    assert(be16(2) =~= seq![0u8, 2u8]);
    assert(ack_packet(block) =~= seq![0u8, 4u8, (block / 256) as u8, (block % 256) as u8]);
    assert(data_packet(block, payload) =~= seq![
        0u8,
        3u8,
        (block / 256) as u8,
        (block % 256) as u8,
    ] + payload);
    assert(error_packet(code, msg) =~= seq![0u8, 5u8, (code / 256) as u8, (code % 256) as u8]
        + encode_utf8(msg) + seq![0u8]);
    assert(rq_packet(2, name, mode) =~= seq![0u8, 2u8] + rq_packet(1, name, mode).skip(2));
}

/// A number of two bytes: the higher comes first.
pub proof fn law_higher_byte_first(a: u8, b: u8, rest: Seq<u8>)
    ensures
        word_at(seq![a, b] + rest, 0) == a * 256 + b,
{
    assert((seq![a, b] + rest)[0] == a && (seq![a, b] + rest)[1] == b);
}

/// Whether a character is this letter, capital or not: their codes are `low` and `low - 32`.
pub open spec fn is_letter(c: char, low: u32) -> bool {
    c as u32 == low || c as u32 == low - 32
}

/// The modes by their names, in any mixture of capital and small letters; there is no other.
pub proof fn law_modes_by_name(s: Seq<char>)
    ensures
        mode_named(s) == Some(Mode::Octet) <==> s.len() == 5 && is_letter(s[0], 111) && is_letter(
            s[1],
            99,
        ) && is_letter(s[2], 116) && is_letter(s[3], 101) && is_letter(s[4], 116),
        mode_named(s) == Some(Mode::Netascii) <==> s.len() == 8 && is_letter(s[0], 110)
            && is_letter(s[1], 101) && is_letter(s[2], 116) && is_letter(s[3], 97) && is_letter(
            s[4],
            115,
        ) && is_letter(s[5], 99) && is_letter(s[6], 105) && is_letter(s[7], 105),
{
    reveal_strlit("octet");
    reveal_strlit("netascii");
    let l = ascii_lowered(s);
    assert forall|i: int, low: u32|
        0 <= i < s.len() && 97 <= low <= 122 implies (#[trigger] is_letter(s[i], low) <==> l[i] as u32
        == low) by {
        lemma_lowered(s[i], low);
    }
    if s.len() == 5 && is_letter(s[0], 111) && is_letter(s[1], 99) && is_letter(s[2], 116)
        && is_letter(s[3], 101) && is_letter(s[4], 116) {
        assert(l =~= "octet"@);
    }
    if l == "octet"@ {
        assert(l.len() == 5 && l[0] as u32 == 111 && l[1] as u32 == 99 && l[2] as u32 == 116
            && l[3] as u32 == 101 && l[4] as u32 == 116);
    }
    if s.len() == 8 && is_letter(s[0], 110) && is_letter(s[1], 101) && is_letter(s[2], 116)
        && is_letter(s[3], 97) && is_letter(s[4], 115) && is_letter(s[5], 99) && is_letter(
        s[6],
        105,
    ) && is_letter(s[7], 105) {
        assert(l =~= "netascii"@);
    }
    if l == "netascii"@ {
        assert(l.len() == 8 && l[0] as u32 == 110 && l[1] as u32 == 101 && l[2] as u32 == 116
            && l[3] as u32 == 97 && l[4] as u32 == 115 && l[5] as u32 == 99 && l[6] as u32 == 105
            && l[7] as u32 == 105);
    }
}

proof fn lemma_lowered(c: char, low: u32)
    requires
        97 <= low <= 122,
    ensures
        is_letter(c, low) <==> outside::ascii_lower(c) as u32 == low,
{
}

/// A mode that is not known is refused with error 4; the obsolete mail mode has its own text.
pub proof fn law_mode_refusal(mode: Seq<char>)
    ensures
        mode_refusal(mode) == error_packet(
            4,
            if ascii_lowered(mode) == "mail"@ {
                "Mail mode is obsolete and not supported"@
            } else {
                "Unknown transfer mode (supported: octet, netascii)"@
            },
        ),
        mode_refusal(mode).len() > 4,
        mode_refusal(mode)[0] == 0,
        mode_refusal(mode)[1] == 5,
        mode_refusal(mode)[2] == 0,
        mode_refusal(mode)[3] == 4,
{
    let msg = if ascii_lowered(mode) == "mail"@ {
        "Mail mode is obsolete and not supported"@
    } else {
        "Unknown transfer mode (supported: octet, netascii)"@
    };
    law_bytes_on_the_wire(0, Seq::empty(), 4, msg, Seq::empty(), Mode::Octet);
}

/// What has no place in a transfer is answered with error 4, and options that nobody asked
/// for with error 8; and it is named in the failure.
pub proof fn law_out_of_place(op: u16)
    ensures
        opcode_refusal(op).0 == if op == 6 {
            error_packet(8, "Options were not requested"@)
        } else {
            error_packet(4, "Illegal TFTP operation"@)
        },
        opcode_refusal(op).1 == error::ErrorView::Protocol(
            "получен пакет с недопустимым кодом операции "@ + text::dec(op as nat),
        ),
{
}

/// An error of the other side arrives with its code and its text.
pub proof fn law_errors_arrive(code: u16, msg: Seq<char>, short: Seq<u8>)
    requires
        !msg.contains('\0'),
        short.len() < 4,
    ensures
        error_of(error_packet(code, msg)) == error::ErrorView::Remote(
            code,
            outside::utf8_lossy(encode_utf8(msg)),
        ),
        error_of(short) == error::ErrorView::Protocol("короткий ERROR-пакет"@),
{
    law_error_roundtrip(code, msg);
    let p = error_packet(code, msg);
    let m = encode_utf8(msg);
    lemma_no_nul(msg);
    lemma_until_nul(m, Seq::empty());
    assert(p.skip(4) =~= m + seq![0u8] + Seq::<u8>::empty());
}

/// A request is read byte by byte: the name up to a zero, the mode up to a zero or the end,
/// and nothing of what follows. Without the zero behind the name, or without a mode, it is
/// no request.
pub proof fn law_requests_are_read(op: Seq<u8>, name: Seq<u8>, mode: Seq<u8>, options: Seq<u8>)
    requires
        op.len() == 2,
        !name.contains(0u8),
        !mode.contains(0u8),
        mode.len() > 0,
    ensures
        rq_fields(op + name + seq![0u8] + mode + seq![0u8] + options) == Some((name, mode)),
        rq_fields(op + name + seq![0u8] + mode) == Some((name, mode)),
        rq_fields(op + name) is None,
        rq_fields(op + name + seq![0u8]) is None,
        rq_fields(op + name + seq![0u8, 0u8] + options) is None,
        rq_texts(op + name + seq![0u8] + mode + seq![0u8] + options) == Some(
            (outside::utf8_lossy(name), outside::lowercase(outside::utf8_lossy(mode))),
        ),
{
    let none = Seq::<u8>::empty();
    let tail = mode + seq![0u8] + options;
    let a = op + name + seq![0u8] + mode + seq![0u8] + options;
    assert(a.skip(2) =~= name + seq![0u8] + tail);
    text::law_first_place_is_found(name, 0u8, tail);
    text::law_first_place_is_found(mode, 0u8, options);
    assert(a.skip(2).take(name.len() as int) =~= name);
    assert(a.skip(2).skip(name.len() as int + 1) =~= tail);
    assert(tail.take(mode.len() as int) =~= mode);
    let b = op + name + seq![0u8] + mode;
    assert(b.skip(2) =~= name + seq![0u8] + mode);
    text::law_first_place_is_found(name, 0u8, mode);
    assert(b.skip(2).take(name.len() as int) =~= name);
    assert(b.skip(2).skip(name.len() as int + 1) =~= mode);
    assert(mode.take(mode.len() as int) =~= mode);
    assert((op + name).skip(2) =~= name);
    let c = op + name + seq![0u8];
    assert(c.skip(2) =~= name + seq![0u8] + none);
    text::law_first_place_is_found(name, 0u8, none);
    assert(c.skip(2).skip(name.len() as int + 1) =~= none);
    let d = op + name + seq![0u8, 0u8] + options;
    let more = seq![0u8] + options;
    assert(d.skip(2) =~= name + seq![0u8] + more);
    text::law_first_place_is_found(name, 0u8, more);
    assert(d.skip(2).skip(name.len() as int + 1) =~= more);
    assert(more =~= none + seq![0u8] + options);
    text::law_first_place_is_found(none, 0u8, options);
}

/// A reported failure is read byte by byte: the code, higher byte first, and the text up to a
/// zero or the end, which may be no text at all.
pub proof fn law_reported_failure_is_read(
    op: Seq<u8>,
    hi: u8,
    lo: u8,
    msg: Seq<u8>,
    more: Seq<u8>,
)
    requires
        op.len() == 2,
        !msg.contains(0u8),
    ensures
        error_of(op + seq![hi, lo] + msg) == error::ErrorView::Remote(
            (hi * 256 + lo) as u16,
            outside::utf8_lossy(msg),
        ),
        error_of(op + seq![hi, lo] + msg + seq![0u8] + more) == error::ErrorView::Remote(
            (hi * 256 + lo) as u16,
            outside::utf8_lossy(msg),
        ),
{
    let p = op + seq![hi, lo] + msg;
    let q = p + seq![0u8] + more;
    text::law_first_place_is_found(msg, 0u8, more);
    assert(p.skip(4) =~= msg);
    assert(q.skip(4) =~= msg + seq![0u8] + more);
    assert(msg.take(msg.len() as int) =~= msg);
    assert((msg + seq![0u8] + more).take(msg.len() as int) =~= msg);
}

} // verus!
