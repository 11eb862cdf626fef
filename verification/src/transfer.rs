//! The transfer of one file in blocks, each acknowledged before the next is sent: the
//! decisions of the side that sends and of the side that receives. Both are driven from
//! outside, by what the socket and the file gave; they say what to do next.
use crate::error;
use crate::error::{TftpError, CANCEL_MSG};
use crate::packet;
use crate::packet::{BLOCK_SIZE, OP_ACK, OP_DATA, OP_ERROR};
use crate::peer::Endpoint;
use crate::text;
use crate::wait;
use crate::wait::{Got, IoFailure, MAX_RETRIES};
use vstd::prelude::*;
use vstd::slice::{slice_subrange, slice_to_vec};

verus! {

// ---------------------------------------------------------------- counters
/// A byte counter after `n` more bytes; it wraps around at 2^64.
pub open spec fn counted(x: u64, n: nat) -> u64 {
    ((x + n) % 0x1_0000_0000_0000_0000) as u64
}

/// The number of the block after `b`: 65535 is followed by 0.
pub open spec fn next_block(b: u16) -> u16 {
    if b == 65535 {
        0
    } else {
        (b + 1) as u16
    }
}

/// The number of the block before `b`.
pub open spec fn prev_block(b: u16) -> u16 {
    if b == 0 {
        65535
    } else {
        (b - 1) as u16
    }
}

/// Adds to a byte counter.
pub(crate) fn count(x: u64, n: usize) -> (r: u64)
    ensures
        r == counted(x, n as nat),
{
    x.wrapping_add(n as u64)
}

/// " (`n`/5)", as a log line counts repetitions.
pub open spec fn tally(n: nat) -> Seq<char> {
    "("@ + text::dec(n) + "/"@ + text::dec(MAX_RETRIES as nat) + ")"@
}

fn push_tally(m: &mut String, n: u32)
    ensures
        final(m)@ == old(m)@ + tally(n as nat),
{
    m.append("(");
    text::push_dec(m, n as u64);
    m.append("/");
    text::push_dec(m, MAX_RETRIES as u64);
    m.append(")");
    assert(m@ =~= old(m)@ + tally(n as nat));
}

/// The line that reports the repetition of `what` after a silence.
pub open spec fn repeat_line(what: Seq<char>, n: nat) -> Seq<char> {
    "  таймаут, повтор"@ + what + " "@ + tally(n)
}

/// Writes the line that reports a repetition.
pub(crate) fn repeat_text(what: &str, n: u32) -> (r: String)
    ensures
        r@ == repeat_line(what@, n as nat),
{
    let mut m = "  таймаут, повтор".to_owned();
    m.append(what);
    m.append(" ");
    push_tally(&mut m, n);
    m
}

// ---------------------------------------------------------------- sending
/// The sending side between two blocks.
#[derive(Debug)]
pub struct Sender {
    /// Number of the block that comes next.
    pub block: u16,
    /// Bytes acknowledged so far.
    pub sent: u64,
}

/// The sending side while a block is on its way.
#[derive(Debug)]
pub struct Sending {
    pub block: u16,
    pub sent: u64,
    /// Bytes of the file in the block.
    pub size: usize,
    /// The packet that carries the block.
    pub packet: Vec<u8>,
    /// How often it has been repeated.
    pub retries: u32,
}

#[verifier::ext_equal]
pub struct SendingView {
    pub block: u16,
    pub sent: u64,
    pub size: nat,
    pub packet: Seq<u8>,
    pub retries: u32,
}

impl View for Sending {
    type V = SendingView;

    open spec fn view(&self) -> SendingView {
        SendingView {
            block: self.block,
            sent: self.sent,
            size: self.size as nat,
            packet: self.packet@,
            retries: self.retries,
        }
    }
}

/// What reading the next block of the file gave.
#[derive(Debug)]
pub enum ReadBlock {
    /// The user has stopped the transfer; nothing was read.
    Cancelled,
    Failed(IoFailure),
    /// The block; one that is not full is the last.
    Bytes(Vec<u8>),
}

pub enum ReadBlockView {
    Cancelled,
    Failed(wait::IoView),
    Bytes(Seq<u8>),
}

impl View for ReadBlock {
    type V = ReadBlockView;

    open spec fn view(&self) -> ReadBlockView {
        match self {
            ReadBlock::Cancelled => ReadBlockView::Cancelled,
            ReadBlock::Failed(e) => ReadBlockView::Failed(e@),
            ReadBlock::Bytes(b) => ReadBlockView::Bytes(b@),
        }
    }
}

/// What the sending side does next.
#[derive(Debug)]
pub enum SendStep {
    /// Send the packet of `Sending`, then wait for an answer until a new deadline.
    Transmit(Sending),
    /// The same after a silence, which a log line reports.
    Retransmit(Sending, String),
    /// Wait on, until the same deadline.
    Wait(Sending),
    /// The block has arrived: report the progress, read the next.
    More(Sender),
    /// The whole file has arrived: report the progress. Its length.
    Done(u64),
    /// Give up, after sending this packet, if any.
    Fail(Option<Vec<u8>>, TftpError),
}

pub enum SendStepView {
    Transmit(SendingView),
    Retransmit(SendingView, Seq<char>),
    Wait(SendingView),
    More(Sender),
    Done(u64),
    Fail(Option<Seq<u8>>, error::ErrorView),
}

/// The bytes of an optional packet.
pub open spec fn packet_view(p: Option<Vec<u8>>) -> Option<Seq<u8>> {
    match p {
        Some(v) => Some(v@),
        None => None,
    }
}

impl View for SendStep {
    type V = SendStepView;

    open spec fn view(&self) -> SendStepView {
        match self {
            SendStep::Transmit(s) => SendStepView::Transmit(s@),
            SendStep::Retransmit(s, m) => SendStepView::Retransmit(s@, m@),
            SendStep::Wait(s) => SendStepView::Wait(s@),
            SendStep::More(s) => SendStepView::More(*s),
            SendStep::Done(n) => SendStepView::Done(*n),
            SendStep::Fail(p, e) => SendStepView::Fail(packet_view(*p), e@),
        }
    }
}

/// The sending side, at the start of a file.
pub open spec fn send_start() -> Sender {
    Sender { block: 1, sent: 0 }
}

/// The sending side, with the next block at hand.
pub open spec fn send_next(s: Sender, read: ReadBlockView) -> SendStepView {
    match read {
        ReadBlockView::Cancelled => SendStepView::Fail(
            Some(packet::error_packet(0, CANCEL_MSG@)),
            error::ErrorView::Cancelled,
        ),
        ReadBlockView::Failed(e) => SendStepView::Fail(
            Some(packet::error_packet(0, "File read error"@)),
            error::ErrorView::Io(e.text),
        ),
        ReadBlockView::Bytes(b) => SendStepView::Transmit(
            SendingView {
                block: s.block,
                sent: s.sent,
                size: b.len(),
                packet: packet::data_packet(s.block, b),
                retries: 0,
            },
        ),
    }
}

/// The sending side, with its block acknowledged.
pub open spec fn send_acked(s: SendingView) -> SendStepView {
    let sent = counted(s.sent, s.size);
    if s.size < BLOCK_SIZE {
        SendStepView::Done(sent)
    } else {
        SendStepView::More(Sender { block: next_block(s.block), sent })
    }
}

/// The sending side, after a wait for the acknowledgement of its block. An
/// acknowledgement of another block changes nothing.
pub open spec fn send_heard(s: SendingView, got: wait::GotView) -> SendStepView {
    match got {
        wait::GotView::Cancelled => SendStepView::Fail(
            Some(packet::error_packet(0, CANCEL_MSG@)),
            error::ErrorView::Cancelled,
        ),
        wait::GotView::Failed(e) => SendStepView::Fail(None, error::ErrorView::Io(e.text)),
        wait::GotView::Silence => if s.retries >= MAX_RETRIES {
            SendStepView::Fail(None, error::ErrorView::Timeout)
        } else {
            SendStepView::Retransmit(
                SendingView { retries: (s.retries + 1) as u32, ..s },
                repeat_line(" блока "@ + text::dec(s.block as nat), (s.retries + 1) as nat),
            )
        },
        wait::GotView::Packet(_, p) => if p.len() < 4 {
            SendStepView::Wait(s)
        } else {
            let op = packet::word_at(p, 0);
            if op == OP_ERROR {
                SendStepView::Fail(None, packet::error_of(p))
            } else if op == OP_ACK {
                if packet::word_at(p, 2) == s.block {
                    send_acked(s)
                } else {
                    SendStepView::Wait(s)
                }
            } else {
                SendStepView::Fail(
                    Some(packet::opcode_refusal(op).0),
                    packet::opcode_refusal(op).1,
                )
            }
        },
    }
}

/// Starts sending a file. No progress has been made.
pub fn send_blocks() -> (r: Sender)
    ensures
        r == send_start(),
{
    Sender { block: 1, sent: 0 }
}

impl Sender {
    /// Takes the next block of the file, of at most `BLOCK_SIZE` bytes.
    pub fn next(self, read: ReadBlock) -> (r: SendStep)
        requires
            read matches ReadBlock::Bytes(b) ==> b.len() <= BLOCK_SIZE,
        ensures
            r@ == send_next(self, read@),
    {
        match read {
            ReadBlock::Cancelled => SendStep::Fail(
                Some(packet::build_error(0, CANCEL_MSG)),
                TftpError::Cancelled,
            ),
            ReadBlock::Failed(e) => SendStep::Fail(
                Some(packet::build_error(0, "File read error")),
                e.into_error(),
            ),
            ReadBlock::Bytes(b) => {
                let packet = packet::build_data(self.block, &b);
                SendStep::Transmit(
                    Sending { block: self.block, sent: self.sent, size: b.len(), packet, retries: 0 },
                )
            },
        }
    }
}

impl Sending {
    /// Takes what came while the acknowledgement of the block was waited for.
    pub fn heard(self, got: Got) -> (r: SendStep)
        ensures
            r@ == send_heard(self@, got@),
    {
        match got {
            Got::Cancelled => SendStep::Fail(
                Some(packet::build_error(0, CANCEL_MSG)),
                TftpError::Cancelled,
            ),
            Got::Failed(e) => SendStep::Fail(None, e.into_error()),
            Got::Silence => {
                if self.retries >= MAX_RETRIES {
                    return SendStep::Fail(None, TftpError::Timeout);
                }
                let mut s = self;
                s.retries = s.retries + 1;
                let mut what = " блока ".to_owned();
                text::push_dec(&mut what, s.block as u64);
                let line = repeat_text(what.as_str(), s.retries);
                SendStep::Retransmit(s, line)
            },
            Got::Packet(_, p) => {
                if p.len() < 4 {
                    return SendStep::Wait(self);
                }
                let op: u16 = packet::opcode_of(&p);
                if op == OP_ERROR {
                    SendStep::Fail(None, packet::parse_error(&p))
                } else if op == OP_ACK {
                    if packet::block_of(&p) != self.block {
                        return SendStep::Wait(self);
                    }
                    let sent: u64 = count(self.sent, self.size);
                    if self.size < BLOCK_SIZE {
                        SendStep::Done(sent)
                    } else {
                        SendStep::More(Sender { block: self.block.wrapping_add(1), sent })
                    }
                } else {
                    let (reply, e) = packet::reject_opcode(op);
                    SendStep::Fail(Some(reply), e)
                }
            },
        }
    }
}

// ---------------------------------------------------------------- receiving
/// The receiving side while it waits for a block.
#[derive(Debug)]
pub struct Receiver {
    /// The packet to repeat after a silence.
    pub last: Vec<u8>,
    /// Number of the block that is waited for.
    pub expected: u16,
    /// Bytes stored so far.
    pub total: u64,
    /// Repetitions since the last block.
    pub retries: u32,
    /// The other side; unknown until its first block comes, where a request was sent.
    pub peer: Option<Endpoint>,
    /// Where the request was sent.
    pub first_addr: Endpoint,
}

#[verifier::ext_equal]
pub struct ReceiverView {
    pub last: Seq<u8>,
    pub expected: u16,
    pub total: u64,
    pub retries: u32,
    pub peer: Option<Endpoint>,
    pub first_addr: Endpoint,
}

impl View for Receiver {
    type V = ReceiverView;

    open spec fn view(&self) -> ReceiverView {
        ReceiverView {
            last: self.last@,
            expected: self.expected,
            total: self.total,
            retries: self.retries,
            peer: self.peer,
            first_addr: self.first_addr,
        }
    }
}

/// The receiving side with a block that is still to be stored.
#[derive(Debug)]
pub struct Pending {
    pub receiver: Receiver,
    pub payload: Vec<u8>,
    /// The other side.
    pub target: Endpoint,
}

#[verifier::ext_equal]
pub struct PendingView {
    pub receiver: ReceiverView,
    pub payload: Seq<u8>,
    pub target: Endpoint,
}

impl View for Pending {
    type V = PendingView;

    open spec fn view(&self) -> PendingView {
        PendingView { receiver: self.receiver@, payload: self.payload@, target: self.target }
    }
}

/// All blocks are stored; the last one has not been acknowledged. Who sent the file
/// takes the last acknowledgement for the end of the transfer, so it must go out only
/// when the file is in its place.
#[derive(Clone, Copy, Debug, PartialEq, Eq, Structural)]
pub struct Received {
    pub total: u64,
    pub last_block: u16,
    pub peer: Endpoint,
}

/// What the receiving side does next. Whenever it waits, it waits until a new deadline.
#[derive(Debug)]
pub enum RecvStep {
    /// Send the last packet again, to this address; a log line reports the silence.
    Resend(Receiver, Endpoint, String),
    Wait(Receiver),
    /// Send this packet to this address, then wait.
    Reply(Receiver, Vec<u8>, Endpoint),
    /// Store the payload, then go on with `stored` or `store_failed`.
    Store(Pending),
    /// Give up, after sending this packet to this address, if any.
    Fail(Option<(Vec<u8>, Endpoint)>, TftpError),
}

pub enum RecvStepView {
    Resend(ReceiverView, Endpoint, Seq<char>),
    Wait(ReceiverView),
    Reply(ReceiverView, Seq<u8>, Endpoint),
    Store(PendingView),
    Fail(Option<(Seq<u8>, Endpoint)>, error::ErrorView),
}

/// The bytes and the address of an optional packet.
pub open spec fn parcel_view(p: Option<(Vec<u8>, Endpoint)>) -> Option<(Seq<u8>, Endpoint)> {
    match p {
        Some(v) => Some((v.0@, v.1)),
        None => None,
    }
}

impl View for RecvStep {
    type V = RecvStepView;

    open spec fn view(&self) -> RecvStepView {
        match self {
            RecvStep::Resend(r, to, m) => RecvStepView::Resend(r@, *to, m@),
            RecvStep::Wait(r) => RecvStepView::Wait(r@),
            RecvStep::Reply(r, p, to) => RecvStepView::Reply(r@, p@, *to),
            RecvStep::Store(p) => RecvStepView::Store(p@),
            RecvStep::Fail(p, e) => RecvStepView::Fail(parcel_view(*p), e@),
        }
    }
}

/// What follows when a block has been stored.
#[derive(Debug)]
pub enum StoreStep {
    /// Acknowledge the block: send the last packet to this address, then wait.
    Ack(Receiver, Endpoint),
    /// That was the last block.
    Done(Received),
}

pub enum StoreStepView {
    Ack(ReceiverView, Endpoint),
    Done(Received),
}

impl View for StoreStep {
    type V = StoreStepView;

    open spec fn view(&self) -> StoreStepView {
        match self {
            StoreStep::Ack(r, to) => StoreStepView::Ack(r@, *to),
            StoreStep::Done(d) => StoreStepView::Done(*d),
        }
    }
}

/// The receiving side at the start, when it has sent `first_packet`: a request to
/// `first_addr` with the other side unknown, or the acknowledgement of block 0 to `peer`.
pub open spec fn recv_start(
    first_addr: Endpoint,
    first_packet: Seq<u8>,
    peer: Option<Endpoint>,
) -> ReceiverView {
    ReceiverView { last: first_packet, expected: 1, total: 0, retries: 0, peer, first_addr }
}

/// Where the last packet goes.
pub open spec fn recv_target(r: ReceiverView) -> Endpoint {
    match r.peer {
        Some(p) => p,
        None => r.first_addr,
    }
}

/// The receiving side, with a block from `from`. Where the other side is unknown, only
/// the first block makes it known. A repeated block is acknowledged again; any other
/// block is let go.
pub open spec fn recv_data(r: ReceiverView, from: Endpoint, p: Seq<u8>) -> RecvStepView {
    let block = packet::word_at(p, 2);
    let payload = p.skip(4);
    let target = match r.peer {
        Some(q) => q,
        None => from,
    };
    let known = ReceiverView { peer: Some(target), ..r };
    if payload.len() > BLOCK_SIZE {
        RecvStepView::Fail(
            Some((packet::error_packet(4, "Data block larger than 512 bytes"@), from)),
            error::ErrorView::Protocol("блок данных больше 512 байт"@),
        )
    } else if r.peer is None && block != r.expected {
        RecvStepView::Wait(r)
    } else if block == r.expected {
        RecvStepView::Store(PendingView { receiver: known, payload, target })
    } else if block == prev_block(r.expected) {
        RecvStepView::Reply(known, packet::ack_packet(block), target)
    } else {
        RecvStepView::Wait(known)
    }
}

/// The receiving side, after a wait for a block.
pub open spec fn recv_heard(r: ReceiverView, got: wait::GotView) -> RecvStepView {
    match got {
        wait::GotView::Cancelled => RecvStepView::Fail(
            Some((packet::error_packet(0, CANCEL_MSG@), recv_target(r))),
            error::ErrorView::Cancelled,
        ),
        wait::GotView::Failed(e) => RecvStepView::Fail(None, error::ErrorView::Io(e.text)),
        wait::GotView::Silence => if r.retries >= MAX_RETRIES {
            RecvStepView::Fail(None, error::ErrorView::Timeout)
        } else {
            RecvStepView::Resend(
                ReceiverView { retries: (r.retries + 1) as u32, ..r },
                recv_target(r),
                repeat_line(""@, (r.retries + 1) as nat),
            )
        },
        wait::GotView::Packet(from, p) => if p.len() < 4 {
            RecvStepView::Wait(r)
        } else {
            let op = packet::word_at(p, 0);
            if op == OP_ERROR {
                RecvStepView::Fail(None, packet::error_of(p))
            } else if op == OP_DATA {
                recv_data(r, from, p)
            } else if r.peer is Some {
                RecvStepView::Fail(
                    Some((packet::opcode_refusal(op).0, r.peer->0)),
                    packet::opcode_refusal(op).1,
                )
            } else {
                RecvStepView::Wait(r)
            }
        },
    }
}

/// The receiving side, with a block stored: one that is not full is the last.
pub open spec fn recv_stored(p: PendingView) -> StoreStepView {
    let total = counted(p.receiver.total, p.payload.len());
    let block = p.receiver.expected;
    if p.payload.len() < BLOCK_SIZE {
        StoreStepView::Done(Received { total, last_block: block, peer: p.target })
    } else {
        StoreStepView::Ack(
            ReceiverView {
                last: packet::ack_packet(block),
                expected: next_block(block),
                total,
                retries: 0,
                ..p.receiver
            },
            p.target,
        )
    }
}

/// Starts receiving a file. The first packet is to be sent to `target`; no progress
/// has been made.
pub fn recv_blocks_deferred(
    first_addr: Endpoint,
    first_packet: Vec<u8>,
    peer: Option<Endpoint>,
) -> (r: Receiver)
    ensures
        r@ == recv_start(first_addr, first_packet@, peer),
{
    Receiver { last: first_packet, expected: 1, total: 0, retries: 0, peer, first_addr }
}

impl Receiver {
    /// Where the last packet goes.
    pub fn target(&self) -> (r: Endpoint)
        ensures
            r == recv_target(self@),
    {
        match self.peer {
            Some(p) => p,
            None => self.first_addr,
        }
    }

    /// Takes a block from `from`.
    fn data(self, from: Endpoint, p: Vec<u8>) -> (r: RecvStep)
        requires
            p.len() >= 4,
        ensures
            r@ == recv_data(self@, from, p@),
    {
        let block: u16 = packet::block_of(&p);
        let payload = slice_to_vec(slice_subrange(&p, 4, p.len()));
        assert(payload@ =~= p@.skip(4));
        if payload.len() > BLOCK_SIZE {
            return RecvStep::Fail(
                Some((packet::build_error(4, "Data block larger than 512 bytes"), from)),
                error::protocol("блок данных больше 512 байт"),
            );
        }
        if self.peer.is_none() && block != self.expected {
            return RecvStep::Wait(self);
        }
        let target = match self.peer {
            Some(q) => q,
            None => from,
        };
        let mut known = self;
        known.peer = Some(target);
        if block == known.expected {
            RecvStep::Store(Pending { receiver: known, payload, target })
        } else if block == known.expected.wrapping_sub(1) {
            RecvStep::Reply(known, packet::ack_vec(block), target)
        } else {
            RecvStep::Wait(known)
        }
    }

    /// Takes what came while a block was waited for.
    pub fn heard(self, got: Got) -> (r: RecvStep)
        ensures
            r@ == recv_heard(self@, got@),
    {
        match got {
            Got::Cancelled => {
                let to = self.target();
                RecvStep::Fail(
                    Some((packet::build_error(0, CANCEL_MSG), to)),
                    TftpError::Cancelled,
                )
            },
            Got::Failed(e) => RecvStep::Fail(None, e.into_error()),
            Got::Silence => {
                if self.retries >= MAX_RETRIES {
                    return RecvStep::Fail(None, TftpError::Timeout);
                }
                let to = self.target();
                let mut s = self;
                s.retries = s.retries + 1;
                let line = repeat_text("", s.retries);
                RecvStep::Resend(s, to, line)
            },
            Got::Packet(from, p) => {
                if p.len() < 4 {
                    return RecvStep::Wait(self);
                }
                let op: u16 = packet::opcode_of(&p);
                if op == OP_ERROR {
                    RecvStep::Fail(None, packet::parse_error(&p))
                } else if op == OP_DATA {
                    self.data(from, p)
                } else {
                    match self.peer {
                        Some(peer) => {
                            let (reply, e) = packet::reject_opcode(op);
                            RecvStep::Fail(Some((reply, peer)), e)
                        },
                        None => RecvStep::Wait(self),
                    }
                }
            },
        }
    }
}

impl Pending {
    /// The payload has been stored; the progress is the new total.
    pub fn stored(self) -> (r: StoreStep)
        ensures
            r@ == recv_stored(self@),
    {
        let total: u64 = count(self.receiver.total, self.payload.len());
        let block: u16 = self.receiver.expected;
        if self.payload.len() < BLOCK_SIZE {
            return StoreStep::Done(Received { total, last_block: block, peer: self.target });
        }
        let mut s = self.receiver;
        s.total = total;
        s.retries = 0;
        s.expected = block.wrapping_add(1);
        s.last = packet::ack_vec(block);
        StoreStep::Ack(s, self.target)
    }

    /// The payload could not be stored: the other side is told, or it would wait in vain.
    /// The packet, where it goes, and the failure.
    pub fn store_failed(self, e: IoFailure) -> (r: (Vec<u8>, Endpoint, TftpError))
        ensures
            r.0@ == packet::error_packet(3, "Disk full or write error"@),
            r.1 == self.target,
            r.2@ == error::ErrorView::Io(e.text@),
    {
        (packet::build_error(3, "Disk full or write error"), self.target, e.into_error())
    }
}

/// The last acknowledgement.
pub fn ack_final(r: &Received) -> (p: Vec<u8>)
    ensures
        p@ == packet::ack_packet(r.last_block),
{
    packet::ack_vec(r.last_block)
}

/// In place of the last acknowledgement: the file could not be kept.
pub fn fail_final(code: u16, msg: &str) -> (p: Vec<u8>)
    ensures
        p@ == packet::error_packet(code, msg@),
{
    packet::build_error(code, msg)
}

// ---------------------------------------------------------------- after the end
/// How long the receiving side stays after its last acknowledgement: if that got lost,
/// the last block comes again and is to be acknowledged again (RFC 1350, section 6).
pub const DALLY: u64 = 4_000_000_000;

/// At most this many transfers are stayed with at a time.
pub const MAX_DALLY_THREADS: usize = 16;

/// Whether one more transfer may be stayed with, where `active` are already.
pub fn may_dally(active: usize) -> (r: bool)
    ensures
        r == (active < MAX_DALLY_THREADS),
{
    active < MAX_DALLY_THREADS
}

/// What a packet deserves that comes after the last acknowledgement, of block `block`.
pub open spec fn dally_reply(block: u16, p: Seq<u8>) -> Option<Seq<u8>> {
    if p.len() >= 4 && packet::word_at(p, 0) == OP_DATA && packet::word_at(p, 2) == block {
        Some(packet::ack_packet(block))
    } else {
        None
    }
}

/// Answers a packet that comes after the last acknowledgement, of block `block`: only
/// that block, come again, is acknowledged.
pub fn dally(block: u16, p: &[u8]) -> (r: Option<Vec<u8>>)
    ensures
        packet_view(r) == dally_reply(block, p@),
{
    if p.len() >= 4 && packet::opcode_of(p) == OP_DATA && packet::block_of(p) == block {
        Some(packet::ack_vec(block))
    } else {
        None
    }
}

// ---------------------------------------------------------------- what each side does
/// Counting bytes: exact below 2^64.
pub proof fn law_bytes_are_counted(x: u64, n: nat)
    ensures
        x + n < 0x1_0000_0000_0000_0000 ==> counted(x, n) == x + n,
        counted(x, n) as int == (x + n) % 0x1_0000_0000_0000_0000,
{
}

/// The numbers of blocks: each is one more than the one before, and 0 follows 65535.
pub proof fn law_block_numbers(b: u16)
    ensures
        b < 65535 ==> next_block(b) == b + 1,
        next_block(65535) == 0,
        prev_block(next_block(b)) == b,
        next_block(prev_block(b)) == b,
        send_start().block == 1,
        send_start().sent == 0,
{
}

/// The sending side sends each block as it was read, under the number at hand. What cannot be
/// read, and a stop, are told to the other side.
pub proof fn law_block_is_sent_as_read(s: Sender, b: Seq<u8>, e: wait::IoView)
    ensures
        send_next(s, ReadBlockView::Bytes(b)) matches SendStepView::Transmit(t) && {
            &&& t.packet == seq![0u8, 3u8, (s.block / 256) as u8, (s.block % 256) as u8] + b
            &&& t.block == s.block
            &&& t.sent == s.sent
            &&& t.size == b.len()
            &&& t.retries == 0
        },
        send_next(s, ReadBlockView::Failed(e)) == SendStepView::Fail(
            Some(packet::error_packet(0, "File read error"@)),
            error::ErrorView::Io(e.text),
        ),
        send_next(s, ReadBlockView::Cancelled) == SendStepView::Fail(
            Some(packet::error_packet(0, "Transfer cancelled"@)),
            error::ErrorView::Cancelled,
        ),
{
    packet::law_bytes_on_the_wire(s.block, b, 0, Seq::empty(), Seq::empty(), packet::Mode::Octet);
}

/// The sending side waits for the acknowledgement of its block, and nothing else moves it on:
/// a full block is followed by the next, one that is not full was the last. A short packet
/// and another acknowledgement change nothing; an error of the other side ends the transfer;
/// and anything else is refused.
pub proof fn law_acknowledgement_moves_on(s: SendingView, from: Endpoint, p: Seq<u8>)
    ensures
        p.len() < 4 ==> send_heard(s, wait::GotView::Packet(from, p)) == SendStepView::Wait(s),
        p.len() >= 4 && p[0] == 0 && p[1] == 4 && p[2] * 256 + p[3] == s.block ==> send_heard(
            s,
            wait::GotView::Packet(from, p),
        ) == if s.size < 512 {
            SendStepView::Done(counted(s.sent, s.size))
        } else {
            SendStepView::More(
                Sender { block: next_block(s.block), sent: counted(s.sent, s.size) },
            )
        },
        p.len() >= 4 && p[0] == 0 && p[1] == 4 && p[2] * 256 + p[3] != s.block ==> send_heard(
            s,
            wait::GotView::Packet(from, p),
        ) == SendStepView::Wait(s),
        p.len() >= 4 && p[0] == 0 && p[1] == 5 ==> send_heard(s, wait::GotView::Packet(from, p))
            == SendStepView::Fail(None, packet::error_of(p)),
        p.len() >= 4 && !(p[0] == 0 && (p[1] == 4 || p[1] == 5)) ==> send_heard(
            s,
            wait::GotView::Packet(from, p),
        ) == SendStepView::Fail(
            Some(packet::opcode_refusal((p[0] * 256 + p[1]) as u16).0),
            packet::opcode_refusal((p[0] * 256 + p[1]) as u16).1,
        ),
{
    if p.len() >= 4 {
        assert(p[0] * 256 + p[1] <= 0xffff && p[2] * 256 + p[3] <= 0xffff);
    }
}

/// After a silence the sending side sends the same packet again, five times at most, and says
/// so; then it gives up. A failure of the socket ends it.
pub proof fn law_sender_is_patient(s: SendingView, e: wait::IoView)
    ensures
        s.retries < 5 ==> send_heard(s, wait::GotView::Silence) == SendStepView::Retransmit(
            SendingView { retries: (s.retries + 1) as u32, ..s },
            "  таймаут, повтор"@ + (" блока "@ + text::dec(s.block as nat)) + " "@ + ("("@
                + text::dec((s.retries + 1) as nat) + "/"@ + text::dec(5) + ")"@),
        ),
        s.retries >= 5 ==> send_heard(s, wait::GotView::Silence) == SendStepView::Fail(
            None,
            error::ErrorView::Timeout,
        ),
        send_heard(s, wait::GotView::Failed(e)) == SendStepView::Fail(
            None,
            error::ErrorView::Io(e.text),
        ),
        send_heard(s, wait::GotView::Cancelled) == SendStepView::Fail(
            Some(packet::error_packet(0, "Transfer cancelled"@)),
            error::ErrorView::Cancelled,
        ),
{
}

/// The receiving side starts with block 1. It stores the bytes of the block that it waits
/// for, all of them; acknowledges the one before again; and lets others go. The first block
/// tells who the other side is. A block that is too large is refused.
pub proof fn law_expected_block_is_stored(
    r: ReceiverView,
    from: Endpoint,
    block: u16,
    payload: Seq<u8>,
    addr: Endpoint,
    first: Seq<u8>,
    peer: Option<Endpoint>,
)
    ensures
        recv_start(addr, first, peer) == (ReceiverView {
            last: first,
            expected: 1,
            total: 0,
            retries: 0,
            peer,
            first_addr: addr,
        }),
        ({
            let step = recv_heard(
                r,
                wait::GotView::Packet(
                    from,
                    seq![0u8, 3u8, (block / 256) as u8, (block % 256) as u8] + payload,
                ),
            );
            let target = match r.peer {
                Some(q) => q,
                None => from,
            };
            let known = ReceiverView { peer: Some(target), ..r };
            &&& payload.len() > 512 ==> step == RecvStepView::Fail(
                Some((packet::error_packet(4, "Data block larger than 512 bytes"@), from)),
                error::ErrorView::Protocol("блок данных больше 512 байт"@),
            )
            &&& payload.len() <= 512 && block == r.expected ==> step == RecvStepView::Store(
                PendingView { receiver: known, payload, target },
            )
            &&& payload.len() <= 512 && block != r.expected && r.peer is None ==> step
                == RecvStepView::Wait(r)
            &&& payload.len() <= 512 && r.peer is Some && next_block(block) == r.expected ==> step
                == RecvStepView::Reply(
                r,
                seq![0u8, 4u8, (block / 256) as u8, (block % 256) as u8],
                target,
            )
            &&& payload.len() <= 512 && r.peer is Some && block != r.expected && next_block(block)
                != r.expected ==> step == RecvStepView::Wait(r)
        }),
{
    packet::law_bytes_on_the_wire(
        block,
        payload,
        0,
        Seq::empty(),
        Seq::empty(),
        packet::Mode::Octet,
    );
    packet::law_data_roundtrip(block, payload);
    law_block_numbers(block);
    law_block_numbers(r.expected);
    if r.peer is Some {
        assert(ReceiverView { peer: Some(r.peer->0), ..r } == r);
    }
}

/// What else can come to the receiving side: short packets change nothing, an error ends the
/// transfer, and anything else is refused where the other side is known and let go where not.
pub proof fn law_receiver_refuses(r: ReceiverView, from: Endpoint, p: Seq<u8>)
    ensures
        p.len() < 4 ==> recv_heard(r, wait::GotView::Packet(from, p)) == RecvStepView::Wait(r),
        p.len() >= 4 && p[0] == 0 && p[1] == 5 ==> recv_heard(r, wait::GotView::Packet(from, p))
            == RecvStepView::Fail(None, packet::error_of(p)),
        p.len() >= 4 && !(p[0] == 0 && (p[1] == 3 || p[1] == 5)) ==> recv_heard(
            r,
            wait::GotView::Packet(from, p),
        ) == match r.peer {
            Some(q) => RecvStepView::Fail(
                Some((packet::opcode_refusal((p[0] * 256 + p[1]) as u16).0, q)),
                packet::opcode_refusal((p[0] * 256 + p[1]) as u16).1,
            ),
            None => RecvStepView::Wait(r),
        },
{
    if p.len() >= 4 {
        assert(p[0] * 256 + p[1] <= 0xffff);
    }
}

/// After a silence the receiving side sends its last packet again, five times at most, to the
/// other side or, where that is unknown, to where the request went; then it gives up.
pub proof fn law_receiver_is_patient(r: ReceiverView, e: wait::IoView)
    ensures
        ({
            let to = match r.peer {
                Some(q) => q,
                None => r.first_addr,
            };
            &&& r.retries < 5 ==> recv_heard(r, wait::GotView::Silence) == RecvStepView::Resend(
                ReceiverView { retries: (r.retries + 1) as u32, ..r },
                to,
                "  таймаут, повтор"@ + ""@ + " "@ + ("("@ + text::dec((r.retries + 1) as nat) + "/"@
                    + text::dec(5) + ")"@),
            )
            &&& r.retries >= 5 ==> recv_heard(r, wait::GotView::Silence) == RecvStepView::Fail(
                None,
                error::ErrorView::Timeout,
            )
            &&& recv_heard(r, wait::GotView::Failed(e)) == RecvStepView::Fail(
                None,
                error::ErrorView::Io(e.text),
            )
            &&& recv_heard(r, wait::GotView::Cancelled) == RecvStepView::Fail(
                Some((packet::error_packet(0, "Transfer cancelled"@), to)),
                error::ErrorView::Cancelled,
            )
        }),
{
}

/// A block that has been stored counts with its bytes. A full one is acknowledged, under its
/// own number, and the next is waited for with new patience; one that is not full was the
/// last, and its number is kept for the last acknowledgement.
pub proof fn law_stored_block_counts(p: PendingView)
    ensures
        p.payload.len() >= 512 ==> recv_stored(p) == StoreStepView::Ack(
            ReceiverView {
                last: seq![
                    0u8,
                    4u8,
                    (p.receiver.expected / 256) as u8,
                    (p.receiver.expected % 256) as u8,
                ],
                expected: next_block(p.receiver.expected),
                total: counted(p.receiver.total, p.payload.len()),
                retries: 0,
                peer: p.receiver.peer,
                first_addr: p.receiver.first_addr,
            },
            p.target,
        ),
        p.payload.len() < 512 ==> recv_stored(p) == StoreStepView::Done(
            Received {
                total: counted(p.receiver.total, p.payload.len()),
                last_block: p.receiver.expected,
                peer: p.target,
            },
        ),
{
    packet::law_bytes_on_the_wire(
        p.receiver.expected,
        Seq::empty(),
        0,
        Seq::empty(),
        Seq::empty(),
        packet::Mode::Octet,
    );
}

/// After the end only a repetition of the last block is answered, with its acknowledgement.
pub proof fn law_last_block_is_acknowledged_again(block: u16, p: Seq<u8>)
    ensures
        dally_reply(block, p) == if p.len() >= 4 && p[0] == 0 && p[1] == 3 && p[2] * 256 + p[3]
            == block {
            Some(seq![0u8, 4u8, (block / 256) as u8, (block % 256) as u8])
        } else {
            None
        },
{
    packet::law_bytes_on_the_wire(
        block,
        Seq::empty(),
        0,
        Seq::empty(),
        Seq::empty(),
        packet::Mode::Octet,
    );
    if p.len() >= 4 {
        assert(p[0] * 256 + p[1] <= 0xffff && p[2] * 256 + p[3] <= 0xffff);
    }
}

} // verus!
