//! Netascii, the text mode of TFTP: on the wire CR LF ends a line and CR NUL is
//! a single carriage return.
use vstd::prelude::*;
use vstd::slice::{slice_subrange, slice_to_vec};

verus! {

pub const CR: u8 = 13;

pub const LF: u8 = 10;

/// Host text in netascii: a line end of the host becomes CR LF, any other CR becomes
/// CR NUL, an LF that is no part of a line end becomes CR LF too, all else stays.
/// `crlf` says how the host ends a line in its files: with CR LF, or with LF alone.
pub open spec fn encoded(s: Seq<u8>, crlf: bool) -> Seq<u8>
    decreases s.len(),
{
    if s.len() == 0 {
        Seq::empty()
    } else if s[0] == CR {
        if crlf && s.len() > 1 && s[1] == LF {
            seq![CR, LF] + encoded(s.skip(2), crlf)
        } else {
            seq![CR, 0u8] + encoded(s.skip(1), crlf)
        }
    } else if s[0] == LF {
        seq![CR, LF] + encoded(s.skip(1), crlf)
    } else {
        seq![s[0]] + encoded(s.skip(1), crlf)
    }
}

/// The line end of the host.
pub open spec fn line_end(crlf: bool) -> Seq<u8> {
    if crlf {
        seq![CR, LF]
    } else {
        seq![LF]
    }
}

/// Netascii as host text: CR LF becomes the line end of the host, CR NUL becomes CR.
/// A CR with neither after it breaks the rules and stays as it is.
pub open spec fn decoded(s: Seq<u8>, crlf: bool) -> Seq<u8>
    decreases s.len(),
{
    if s.len() == 0 {
        Seq::empty()
    } else if s[0] == CR && s.len() > 1 && s[1] == LF {
        line_end(crlf) + decoded(s.skip(2), crlf)
    } else if s[0] == CR && s.len() > 1 && s[1] == 0 {
        seq![CR] + decoded(s.skip(2), crlf)
    } else {
        seq![s[0]] + decoded(s.skip(1), crlf)
    }
}

// ---------------------------------------------------------------- encoder
/// What the encoder emits for one byte, where `held` says that it holds a CR back.
pub open spec fn enc_bytes(held: bool, crlf: bool, b: u8) -> Seq<u8> {
    if held && b == LF {
        seq![CR, LF]
    } else {
        (if held {
            seq![CR, 0u8]
        } else {
            Seq::empty()
        }) + (if b == CR && crlf {
            Seq::empty()
        } else if b == CR {
            seq![CR, 0u8]
        } else if b == LF {
            seq![CR, LF]
        } else {
            seq![b]
        })
    }
}

/// Whether the encoder holds a CR back after one byte.
pub open spec fn enc_held(held: bool, crlf: bool, b: u8) -> bool {
    b == CR && crlf
}

/// Whether the encoder holds a CR back after a run of bytes.
pub open spec fn enc_state(held: bool, crlf: bool, s: Seq<u8>) -> bool {
    if s.len() == 0 {
        held
    } else {
        enc_held(held, crlf, s.last())
    }
}

/// What the encoder emits for a run of bytes.
pub open spec fn enc_out(held: bool, crlf: bool, s: Seq<u8>) -> Seq<u8>
    decreases s.len(),
{
    if s.len() == 0 {
        Seq::empty()
    } else {
        enc_out(held, crlf, s.drop_last()) + enc_bytes(
            enc_state(held, crlf, s.drop_last()),
            crlf,
            s.last(),
        )
    }
}

/// What the encoder emits at the end of its input.
pub open spec fn enc_flush(held: bool) -> Seq<u8> {
    if held {
        seq![CR, 0u8]
    } else {
        Seq::empty()
    }
}

/// Turns host text into netascii, in pieces of any size. Bytes of 128 and above
/// go through as they are.
pub struct NetasciiEncoder {
    queue: Vec<u8>,
    pos: usize,
    /// A CR has been seen, and what follows decides what it becomes.
    held_cr: bool,
    native_crlf: bool,
    eof: bool,
}

impl NetasciiEncoder {
    /// Not more has been taken than was queued.
    pub closed spec fn wf(&self) -> bool {
        self.pos <= self.queue.len()
    }

    /// Bytes ready to be read.
    pub closed spec fn pending(&self) -> Seq<u8> {
        self.queue@.skip(self.pos as int)
    }

    pub closed spec fn held(&self) -> bool {
        self.held_cr
    }

    pub closed spec fn crlf(&self) -> bool {
        self.native_crlf
    }

    pub closed spec fn ended(&self) -> bool {
        self.eof
    }

    /// An encoder for a host whose files end lines as `native_crlf` says.
    pub fn with_newline(native_crlf: bool) -> (r: NetasciiEncoder)
        ensures
            r.wf(),
            r.pending() == Seq::<u8>::empty(),
            !r.held(),
            r.crlf() == native_crlf,
            !r.ended(),
    {
        let r = NetasciiEncoder {
            queue: Vec::new(),
            pos: 0,
            held_cr: false,
            native_crlf,
            eof: false,
        };
        assert(r.pending() =~= Seq::<u8>::empty());
        r
    }

    /// Takes one byte of host text.
    pub fn push(&mut self, b: u8)
        requires
            old(self).wf(),
        ensures
            final(self).wf(),
            final(self).pending() == old(self).pending() + enc_bytes(
                old(self).held(),
                old(self).crlf(),
                b,
            ),
            final(self).held() == enc_held(old(self).held(), old(self).crlf(), b),
            final(self).crlf() == old(self).crlf(),
            final(self).ended() == old(self).ended(),
    {
        let ghost before = self.pending();
        if self.held_cr {
            self.held_cr = false;
            self.queue.push(CR);
            if b == LF {
                self.queue.push(LF);
                assert(self.pending() =~= before + seq![CR, LF]);
                return;
            }
            self.queue.push(0);
        }
        if b == CR {
            if self.native_crlf {
                self.held_cr = true;
            } else {
                self.queue.push(CR);
                self.queue.push(0);
            }
        } else if b == LF {
            self.queue.push(CR);
            self.queue.push(LF);
        } else {
            self.queue.push(b);
        }
        assert(self.pending() =~= before + enc_bytes(old(self).held(), old(self).crlf(), b));
    }

    /// Whether more host text is needed before anything can be read.
    pub fn wants_input(&self) -> (r: bool)
        requires
            self.wf(),
        ensures
            r == (self.pending().len() == 0 && !self.ended()),
    {
        self.pos >= self.queue.len() && !self.eof
    }

    /// Takes the next piece of host text; an empty piece is its end. Must not be
    /// called before everything pending has been read.
    pub fn supply(&mut self, chunk: &[u8])
        requires
            old(self).wf(),
            old(self).pending().len() == 0,
        ensures
            final(self).wf(),
            final(self).crlf() == old(self).crlf(),
            final(self).ended() == (old(self).ended() || chunk.len() == 0),
            chunk.len() == 0 ==> {
                &&& final(self).pending() == enc_flush(old(self).held())
                &&& !final(self).held()
            },
            chunk.len() > 0 ==> {
                &&& final(self).pending() == enc_out(old(self).held(), old(self).crlf(), chunk@)
                &&& final(self).held() == enc_state(old(self).held(), old(self).crlf(), chunk@)
            },
    {
        self.queue.clear();
        self.pos = 0;
        if chunk.len() == 0 {
            self.eof = true;
            if self.held_cr {
                self.held_cr = false;
                self.queue.push(CR);
                self.queue.push(0);
            }
            assert(self.pending() =~= enc_flush(old(self).held()));
            return;
        }
        let ghost held = old(self).held();
        let ghost crlf = old(self).crlf();
        assert(self.pending() =~= Seq::<u8>::empty());
        let mut i: usize = 0;
        while i < chunk.len()
            invariant
                i <= chunk.len(),
                self.wf(),
                self.crlf() == crlf,
                self.ended() == old(self).ended(),
                self.pending() == enc_out(held, crlf, chunk@.take(i as int)),
                self.held() == enc_state(held, crlf, chunk@.take(i as int)),
            decreases chunk.len() - i,
        {
            self.push(chunk[i]);
            i = i + 1;
            assert(chunk@.take(i as int).drop_last() =~= chunk@.take(i - 1));
        }
        assert(chunk@.take(i as int) =~= chunk@);
    }

    /// Takes at most `max` bytes of those that are ready.
    pub fn read(&mut self, max: usize) -> (r: Vec<u8>)
        requires
            old(self).wf(),
        ensures
            final(self).wf(),
            r@.len() == (if max < old(self).pending().len() {
                max as nat
            } else {
                old(self).pending().len()
            }),
            old(self).pending() == r@ + final(self).pending(),
            final(self).held() == old(self).held(),
            final(self).crlf() == old(self).crlf(),
            final(self).ended() == old(self).ended(),
    {
        let ready: usize = self.queue.len() - self.pos;
        let n: usize = if max < ready { max } else { ready };
        let out = slice_to_vec(slice_subrange(&self.queue, self.pos, self.pos + n));
        self.pos = self.pos + n;
        assert(old(self).pending() =~= out@ + self.pending());
        out
    }
}

// ---------------------------------------------------------------- decoder
/// What the decoder emits for one byte, where `held` says that the last was a CR
/// whose meaning is still open.
pub open spec fn dec_bytes(held: bool, crlf: bool, b: u8) -> Seq<u8> {
    if held && b == LF {
        line_end(crlf)
    } else if held && b == 0 {
        seq![CR]
    } else {
        (if held {
            seq![CR]
        } else {
            Seq::empty()
        }) + (if b == CR {
            Seq::empty()
        } else {
            seq![b]
        })
    }
}

/// Whether the meaning of a CR is open after a run of bytes.
pub open spec fn dec_state(held: bool, s: Seq<u8>) -> bool {
    if s.len() == 0 {
        held
    } else {
        s.last() == CR
    }
}

/// What the decoder emits for a run of bytes.
pub open spec fn dec_out(held: bool, crlf: bool, s: Seq<u8>) -> Seq<u8>
    decreases s.len(),
{
    if s.len() == 0 {
        Seq::empty()
    } else {
        dec_out(held, crlf, s.drop_last()) + dec_bytes(
            dec_state(held, s.drop_last()),
            crlf,
            s.last(),
        )
    }
}

/// What the decoder emits at the end of its input.
pub open spec fn dec_flush(held: bool) -> Seq<u8> {
    if held {
        seq![CR]
    } else {
        Seq::empty()
    }
}

/// Turns netascii into host text. A CR may end one block while its LF or NUL begins
/// the next, so the state lives on between blocks; `finish` must be called at the end.
pub struct NetasciiDecoder {
    pub pending_cr: bool,
    pub native_crlf: bool,
}

impl NetasciiDecoder {
    /// A decoder for a host whose files end lines as `native_crlf` says.
    pub fn with_newline(native_crlf: bool) -> (r: NetasciiDecoder)
        ensures
            !r.pending_cr,
            r.native_crlf == native_crlf,
    {
        NetasciiDecoder { pending_cr: false, native_crlf }
    }

    /// Takes one byte and appends what it yields to `out`.
    pub fn feed(&mut self, b: u8, out: &mut Vec<u8>)
        ensures
            final(out)@ == old(out)@ + dec_bytes(old(self).pending_cr, old(self).native_crlf, b),
            final(self).pending_cr == dec_state(old(self).pending_cr, seq![b]),
            final(self).native_crlf == old(self).native_crlf,
    {
        if self.pending_cr {
            self.pending_cr = false;
            if b == LF {
                if self.native_crlf {
                    out.push(CR);
                }
                out.push(LF);
                assert(out@ =~= old(out)@ + line_end(self.native_crlf));
                return;
            }
            out.push(CR);
            if b == 0 {
                assert(out@ =~= old(out)@ + seq![CR]);
                return;
            }
        }
        if b == CR {
            self.pending_cr = true;
        } else {
            out.push(b);
        }
        assert(out@ =~= old(out)@ + dec_bytes(old(self).pending_cr, old(self).native_crlf, b));
    }

    /// Takes a block and gives the host text it yields.
    pub fn write(&mut self, data: &[u8]) -> (r: Vec<u8>)
        ensures
            r@ == dec_out(old(self).pending_cr, old(self).native_crlf, data@),
            final(self).pending_cr == dec_state(old(self).pending_cr, data@),
            final(self).native_crlf == old(self).native_crlf,
    {
        let mut out: Vec<u8> = Vec::new();
        let mut i: usize = 0;
        while i < data.len()
            invariant
                i <= data.len(),
                self.native_crlf == old(self).native_crlf,
                self.pending_cr == dec_state(old(self).pending_cr, data@.take(i as int)),
                out@ == dec_out(old(self).pending_cr, old(self).native_crlf, data@.take(i as int)),
            decreases data.len() - i,
        {
            self.feed(data[i], &mut out);
            i = i + 1;
            assert(data@.take(i as int).drop_last() =~= data@.take(i - 1));
        }
        assert(data@.take(i as int) =~= data@);
        out
    }

    /// The end of the input: a CR that is still open is itself.
    pub fn finish(&mut self) -> (r: Vec<u8>)
        ensures
            r@ == dec_flush(old(self).pending_cr),
            !final(self).pending_cr,
            final(self).native_crlf == old(self).native_crlf,
    {
        let mut out: Vec<u8> = Vec::new();
        if self.pending_cr {
            self.pending_cr = false;
            out.push(CR);
        }
        assert(out@ =~= dec_flush(old(self).pending_cr));
        out
    }
}

// ---------------------------------------------------------------- laws
/// How host text is cut into pieces does not matter to what the encoder emits.
pub proof fn law_encoder_pieces(held: bool, crlf: bool, a: Seq<u8>, b: Seq<u8>)
    ensures
        enc_out(held, crlf, a + b) == enc_out(held, crlf, a) + enc_out(
            enc_state(held, crlf, a),
            crlf,
            b,
        ),
        enc_state(held, crlf, a + b) == enc_state(enc_state(held, crlf, a), crlf, b),
    decreases b.len(),
{
    if b.len() == 0 {
        assert(a + b =~= a);
        assert(enc_out(held, crlf, a) + Seq::<u8>::empty() =~= enc_out(held, crlf, a));
    } else {
        law_encoder_pieces(held, crlf, a, b.drop_last());
        assert((a + b).drop_last() =~= a + b.drop_last());
        assert(enc_out(held, crlf, a + b) =~= enc_out(held, crlf, a) + enc_out(
            enc_state(held, crlf, a),
            crlf,
            b,
        ));
    }
}

/// How netascii is cut into blocks does not matter to what the decoder emits.
pub proof fn law_decoder_pieces(held: bool, crlf: bool, a: Seq<u8>, b: Seq<u8>)
    ensures
        dec_out(held, crlf, a + b) == dec_out(held, crlf, a) + dec_out(
            dec_state(held, a),
            crlf,
            b,
        ),
        dec_state(held, a + b) == dec_state(dec_state(held, a), b),
    decreases b.len(),
{
    if b.len() == 0 {
        assert(a + b =~= a);
        assert(dec_out(held, crlf, a) + Seq::<u8>::empty() =~= dec_out(held, crlf, a));
    } else {
        law_decoder_pieces(held, crlf, a, b.drop_last());
        assert((a + b).drop_last() =~= a + b.drop_last());
        assert(dec_out(held, crlf, a + b) =~= dec_out(held, crlf, a) + dec_out(
            dec_state(held, a),
            crlf,
            b,
        ));
    }
}

/// A CR that is held back, as text.
spec fn held_text(held: bool) -> Seq<u8> {
    if held {
        seq![CR]
    } else {
        Seq::empty()
    }
}

#[verifier::spinoff_prover]
proof fn lemma_encoded_step(held: bool, crlf: bool, b: u8, t: Seq<u8>)
    requires
        held ==> crlf,
    ensures
        encoded(held_text(held) + (seq![b] + t), crlf) == enc_bytes(held, crlf, b) + encoded(
            held_text(enc_held(held, crlf, b)) + t,
            crlf,
        ),
{
    let s = seq![b] + t;
    let full = held_text(held) + s;
    let next = enc_held(held, crlf, b);
    let e = encoded(held_text(next) + t, crlf);
    assert(s.skip(1) =~= t);
    if held {
        assert(full[0] == CR && full[1] == b);
        if b == LF {
            assert(full.skip(2) =~= held_text(next) + t);
        } else {
            assert(full.skip(1) =~= s);
            assert(encoded(full, crlf) == seq![CR, 0u8] + encoded(s, crlf));
            if b == CR {
                assert(s =~= held_text(next) + t);
                assert(enc_bytes(held, crlf, b) =~= seq![CR, 0u8]);
            } else {
                assert(t =~= held_text(next) + t);
                assert(encoded(s, crlf) == seq![b] + e);
                assert(enc_bytes(held, crlf, b) + e =~= seq![CR, 0u8] + (seq![b] + e));
            }
        }
    } else {
        assert(full =~= s);
        if b == CR && crlf {
            assert(s =~= held_text(next) + t);
            assert(enc_bytes(held, crlf, b) + e =~= e);
        } else {
            assert(t =~= held_text(next) + t);
            let emitted = if b == CR {
                seq![CR, 0u8]
            } else if b == LF {
                seq![CR, LF]
            } else {
                seq![b]
            };
            assert(encoded(s, crlf) == emitted + e);
            assert(enc_bytes(held, crlf, b) =~= emitted);
        }
    }
}

#[verifier::spinoff_prover]
proof fn lemma_encoder(held: bool, crlf: bool, s: Seq<u8>)
    requires
        held ==> crlf,
    ensures
        enc_out(held, crlf, s) + enc_flush(enc_state(held, crlf, s)) == encoded(
            held_text(held) + s,
            crlf,
        ),
    decreases s.len(),
{
    if s.len() == 0 {
        let full = held_text(held) + s;
        if held {
            assert(full.skip(1) =~= Seq::<u8>::empty());
            assert(encoded(full.skip(1), crlf) == Seq::<u8>::empty());
        }
        assert(enc_out(held, crlf, s) + enc_flush(held) =~= encoded(full, crlf));
    } else {
        let b = s[0];
        let t = s.skip(1);
        let next = enc_held(held, crlf, b);
        assert(s =~= seq![b] + t);
        law_encoder_pieces(held, crlf, seq![b], t);
        assert(seq![b].drop_last() =~= Seq::<u8>::empty());
        assert(enc_out(held, crlf, Seq::<u8>::empty()) == Seq::<u8>::empty());
        assert(enc_out(held, crlf, seq![b]) =~= enc_bytes(held, crlf, b));
        lemma_encoder(next, crlf, t);
        lemma_encoded_step(held, crlf, b, t);
        assert(enc_out(held, crlf, s) + enc_flush(enc_state(held, crlf, s)) =~= enc_bytes(
            held,
            crlf,
            b,
        ) + (enc_out(next, crlf, t) + enc_flush(enc_state(next, crlf, t))));
    }
}

/// All that the encoder emits for a text, up to and with its end, is the text in netascii.
pub proof fn law_encoder_encodes(crlf: bool, s: Seq<u8>)
    ensures
        enc_out(false, crlf, s) + enc_flush(enc_state(false, crlf, s)) == encoded(s, crlf),
{
    lemma_encoder(false, crlf, s);
    assert(Seq::<u8>::empty() + s =~= s);
}

#[verifier::spinoff_prover]
proof fn lemma_decoded_step(held: bool, crlf: bool, b: u8, t: Seq<u8>)
    ensures
        decoded(held_text(held) + (seq![b] + t), crlf) == dec_bytes(held, crlf, b) + decoded(
            held_text(b == CR) + t,
            crlf,
        ),
{
    let s = seq![b] + t;
    let full = held_text(held) + s;
    let d = decoded(held_text(b == CR) + t, crlf);
    assert(s.skip(1) =~= t);
    if held {
        assert(full[0] == CR && full[1] == b);
        if b == LF || b == 0 {
            assert(full.skip(2) =~= held_text(b == CR) + t);
        } else {
            assert(full.skip(1) =~= s);
            assert(decoded(full, crlf) == seq![CR] + decoded(s, crlf));
            if b == CR {
                assert(s =~= held_text(true) + t);
                assert(dec_bytes(held, crlf, b) =~= seq![CR]);
            } else {
                assert(t =~= held_text(false) + t);
                assert(decoded(s, crlf) == seq![b] + d);
                assert(dec_bytes(held, crlf, b) + d =~= seq![CR] + (seq![b] + d));
            }
        }
    } else {
        assert(full =~= s);
        if b == CR {
            assert(s =~= held_text(true) + t);
            assert(dec_bytes(held, crlf, b) + d =~= d);
        } else {
            assert(t =~= held_text(false) + t);
            assert(decoded(s, crlf) == seq![b] + d);
            assert(dec_bytes(held, crlf, b) =~= seq![b]);
        }
    }
}

#[verifier::spinoff_prover]
proof fn lemma_decoder(held: bool, crlf: bool, s: Seq<u8>)
    ensures
        dec_out(held, crlf, s) + dec_flush(dec_state(held, s)) == decoded(
            held_text(held) + s,
            crlf,
        ),
    decreases s.len(),
{
    if s.len() == 0 {
        let full = held_text(held) + s;
        if held {
            assert(full.skip(1) =~= Seq::<u8>::empty());
            assert(decoded(full.skip(1), crlf) == Seq::<u8>::empty());
        }
        assert(dec_out(held, crlf, s) + dec_flush(held) =~= decoded(full, crlf));
    } else {
        let b = s[0];
        let t = s.skip(1);
        let next = b == CR;
        assert(s =~= seq![b] + t);
        law_decoder_pieces(held, crlf, seq![b], t);
        assert(seq![b].drop_last() =~= Seq::<u8>::empty());
        assert(dec_out(held, crlf, Seq::<u8>::empty()) == Seq::<u8>::empty());
        assert(dec_out(held, crlf, seq![b]) =~= dec_bytes(held, crlf, b));
        assert(dec_state(held, seq![b]) == next);
        lemma_decoder(next, crlf, t);
        lemma_decoded_step(held, crlf, b, t);
        assert(dec_out(held, crlf, s) + dec_flush(dec_state(held, s)) =~= dec_bytes(held, crlf, b)
            + (dec_out(next, crlf, t) + dec_flush(dec_state(next, t))));
    }
}

/// All that the decoder emits for a transfer, up to and with its end, is the host text of it.
pub proof fn law_decoder_decodes(crlf: bool, s: Seq<u8>)
    ensures
        dec_out(false, crlf, s) + dec_flush(dec_state(false, s)) == decoded(s, crlf),
{
    lemma_decoder(false, crlf, s);
    assert(Seq::<u8>::empty() + s =~= s);
}

/// Whether every LF of a text stands behind a CR.
pub open spec fn no_bare_lf(s: Seq<u8>) -> bool {
    forall|i: int| 0 <= i < s.len() && #[trigger] s[i] == LF ==> i > 0 && s[i - 1] == CR
}

/// Text that goes out in netascii comes back the same. On a host that ends lines with
/// CR LF this holds of texts in which every LF stands behind a CR.
pub proof fn law_netascii_roundtrip(s: Seq<u8>, crlf: bool)
    requires
        crlf ==> no_bare_lf(s),
    ensures
        decoded(encoded(s, crlf), crlf) == s,
    decreases s.len(),
{
    if s.len() > 0 {
        let t = s.skip(1);
        if s[0] == CR && crlf && s.len() > 1 && s[1] == LF {
            let u = s.skip(2);
            assert forall|i: int| 0 <= i < u.len() && #[trigger] u[i] == LF implies i > 0 && u[i
                - 1] == CR by {
                assert(s[i + 2] == LF);
            }
            law_netascii_roundtrip(u, crlf);
            let e = encoded(s, crlf);
            assert(e.skip(2) =~= encoded(u, crlf));
            assert(seq![CR, LF] + u =~= s);
        } else {
            if crlf {
                assert(s[0] != LF);
                assert forall|i: int| 0 <= i < t.len() && #[trigger] t[i] == LF implies i > 0 && t[i
                    - 1] == CR by {
                    assert(s[i + 1] == LF);
                }
            }
            law_netascii_roundtrip(t, crlf);
            let e = encoded(s, crlf);
            if s[0] == CR || s[0] == LF {
                assert(e.skip(2) =~= encoded(t, crlf));
            } else {
                assert(e.skip(1) =~= encoded(t, crlf));
            }
            assert(seq![s[0]] + t =~= s);
        }
    }
}

/// A text arrives as it was: what the decoder makes of all that the encoder emits, however
/// that is cut into blocks, is the text. On a host that ends lines with CR LF this holds of
/// texts in which every LF stands behind a CR.
pub proof fn law_text_arrives(s: Seq<u8>, crlf: bool, a: Seq<u8>, b: Seq<u8>)
    requires
        crlf ==> no_bare_lf(s),
        a + b == enc_out(false, crlf, s) + enc_flush(enc_state(false, crlf, s)),
    ensures
        dec_out(false, crlf, a) + dec_out(dec_state(false, a), crlf, b) + dec_flush(
            dec_state(dec_state(false, a), b),
        ) == s,
{
    law_encoder_encodes(crlf, s);
    law_decoder_pieces(false, crlf, a, b);
    law_decoder_decodes(crlf, a + b);
    law_netascii_roundtrip(s, crlf);
}

/// The text on the wire, where a line ends with a line feed at home: a line feed goes out as
/// 13 10, a carriage return as 13 0, and every other byte as it is, one after the other.
pub proof fn law_wire_form(a: Seq<u8>, b: Seq<u8>, c: u8)
    ensures
        encoded(a + b, false) == encoded(a, false) + encoded(b, false),
        encoded(seq![c], false) == if c == 10 {
            seq![13u8, 10u8]
        } else if c == 13 {
            seq![13u8, 0u8]
        } else {
            seq![c]
        },
        encoded(Seq::empty(), false) == Seq::<u8>::empty(),
    decreases a.len(),
{
    let one = seq![c];
    assert(one.skip(1) =~= Seq::<u8>::empty());
    assert(encoded(one.skip(1), false) =~= Seq::<u8>::empty());
    assert(encoded(one, false) =~= if c == 10 {
        seq![13u8, 10u8]
    } else if c == 13 {
        seq![13u8, 0u8]
    } else {
        seq![c]
    });
    if a.len() == 0 {
        assert(a + b =~= b);
        assert(encoded(a, false) + encoded(b, false) =~= encoded(b, false));
    } else {
        assert((a + b).skip(1) =~= a.skip(1) + b);
        law_wire_form(a.skip(1), b, c);
        assert(encoded(a + b, false) =~= encoded(a, false) + encoded(b, false));
    }
}

/// The text on the wire, where a line ends with 13 10 at home: that pair goes out as it is, a
/// carriage return without a line feed as 13 0, and a line feed alone as 13 10.
pub proof fn law_wire_form_of_pairs(s: Seq<u8>, c: u8)
    ensures
        encoded(seq![13u8, 10u8] + s, true) == seq![13u8, 10u8] + encoded(s, true),
        !(s.len() > 0 && s[0] == 10) ==> encoded(seq![13u8] + s, true) == seq![13u8, 0u8] + encoded(
            s,
            true,
        ),
        encoded(seq![10u8] + s, true) == seq![13u8, 10u8] + encoded(s, true),
        c != 10 && c != 13 ==> encoded(seq![c] + s, true) == seq![c] + encoded(s, true),
        encoded(Seq::empty(), true) == Seq::<u8>::empty(),
{
    assert((seq![13u8, 10u8] + s).skip(2) =~= s);
    assert((seq![13u8] + s).skip(1) =~= s);
    assert((seq![10u8] + s).skip(1) =~= s);
    assert((seq![c] + s).skip(1) =~= s);
    if s.len() > 0 {
        assert((seq![13u8] + s)[1] == s[0]);
    }
}

/// The text at home: 13 10 becomes the end of a line, 13 0 a carriage return, and every other
/// byte stays, a carriage return without either behind it too.
pub proof fn law_home_form(s: Seq<u8>, crlf: bool, c: u8)
    ensures
        decoded(seq![13u8, 10u8] + s, crlf) == (if crlf {
            seq![13u8, 10u8]
        } else {
            seq![10u8]
        }) + decoded(s, crlf),
        decoded(seq![13u8, 0u8] + s, crlf) == seq![13u8] + decoded(s, crlf),
        !(s.len() > 0 && (s[0] == 10 || s[0] == 0)) ==> decoded(seq![13u8] + s, crlf) == seq![13u8]
            + decoded(s, crlf),
        c != 13 ==> decoded(seq![c] + s, crlf) == seq![c] + decoded(s, crlf),
        decoded(Seq::empty(), crlf) == Seq::<u8>::empty(),
{
    assert((seq![13u8, 10u8] + s).skip(2) =~= s);
    assert((seq![13u8, 0u8] + s).skip(2) =~= s);
    assert((seq![13u8] + s).skip(1) =~= s);
    assert((seq![c] + s).skip(1) =~= s);
    if s.len() > 0 {
        assert((seq![13u8] + s)[1] == s[0]);
        assert((seq![c] + s)[1] == s[0]);
    }
}

} // verus!
