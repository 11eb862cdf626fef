//! What the two sides of a transfer achieve together: however packets get lost, are
//! repeated or come late, what has been stored is always the beginning of the file,
//! and at the end it is the file. Blocks are counted from 1 without bound here; only
//! their numbers on the wire wrap around, so a packet may be late by less than 65536
//! blocks.
use crate::client;
use crate::packet;
use crate::packet::BLOCK_SIZE;
use crate::peer::Endpoint;
use crate::transfer;
use crate::wait;
use vstd::prelude::*;

verus! {

/// How many blocks a file makes. The last is never full: it may be empty.
pub open spec fn block_count(f: Seq<u8>) -> nat {
    f.len() / (BLOCK_SIZE as nat) + 1
}

/// Where block `j` of a file of `len` bytes ends.
pub open spec fn block_end(len: nat, j: int) -> int {
    if j * BLOCK_SIZE <= len {
        j * BLOCK_SIZE
    } else {
        len as int
    }
}

/// Block `j` of a file.
pub open spec fn file_block(f: Seq<u8>, j: int) -> Seq<u8> {
    f.subrange((j - 1) * BLOCK_SIZE, block_end(f.len(), j))
}

/// The number of block `j` on the wire.
pub open spec fn block_number(j: int) -> u16 {
    (j % 65536) as u16
}

/// The packet that carries block `j`.
pub open spec fn block_packet(f: Seq<u8>, j: int) -> Seq<u8> {
    packet::data_packet(block_number(j), file_block(f, j))
}

/// The sending side with `k` blocks acknowledged.
pub open spec fn sender_at(k: int) -> transfer::Sender {
    transfer::Sender {
        block: block_number(k + 1),
        sent: transfer::counted(0, (k * BLOCK_SIZE) as nat),
    }
}

/// Whether `s` is the sending side with `k` blocks acknowledged and the next on its way.
pub open spec fn is_sending_at(f: Seq<u8>, k: int, s: transfer::SendingView) -> bool {
    &&& 0 <= k < block_count(f)
    &&& s.block == block_number(k + 1)
    &&& s.sent == transfer::counted(0, (k * BLOCK_SIZE) as nat)
    &&& s.size == file_block(f, k + 1).len()
    &&& s.packet == block_packet(f, k + 1)
}

/// Whether `r` is the receiving side with `k` blocks of a file from `peer` stored. Before
/// the first block the other side may be unknown.
pub open spec fn is_receiver_at(
    f: Seq<u8>,
    k: int,
    r: transfer::ReceiverView,
    peer: Endpoint,
) -> bool {
    &&& 0 <= k < block_count(f)
    &&& r.expected == block_number(k + 1)
    &&& r.total == transfer::counted(0, (k * BLOCK_SIZE) as nat)
    &&& r.peer == Some(peer) || (k == 0 && r.peer is None)
}

proof fn lemma_block(f: Seq<u8>, j: int)
    requires
        1 <= j <= block_count(f),
    ensures
        0 <= (j - 1) * BLOCK_SIZE <= block_end(f.len(), j) <= f.len(),
        file_block(f, j).len() <= BLOCK_SIZE,
        file_block(f, j).len() < BLOCK_SIZE <==> j == block_count(f),
        f.take((j - 1) * BLOCK_SIZE) + file_block(f, j) == f.take(block_end(f.len(), j)),
        j == block_count(f) ==> block_end(f.len(), j) == f.len(),
        j < block_count(f) ==> block_end(f.len(), j) == j * BLOCK_SIZE,
        transfer::counted(
            transfer::counted(0, ((j - 1) * BLOCK_SIZE) as nat),
            file_block(f, j).len(),
        ) == transfer::counted(0, block_end(f.len(), j) as nat),
{
    let a = (j - 1) * BLOCK_SIZE;
    let b = block_end(f.len(), j);
    assert(f.take(a) + file_block(f, j) =~= f.take(b));
    assert(a + file_block(f, j).len() == b);
}

proof fn lemma_number(k: int, j: int)
    requires
        0 <= j <= k + 1,
        j > k + 1 - 65536,
    ensures
        block_number(j) == block_number(k + 1) <==> j == k + 1,
        block_number(j) == transfer::prev_block(block_number(k + 1)) <==> j == k,
        transfer::next_block(block_number(j)) == block_number(j + 1),
{
}

/// The sending side starts with nothing acknowledged.
pub proof fn law_sender_starts()
    ensures
        transfer::send_start() == sender_at(0),
{
}

/// The next block of the file is sent under its number.
pub proof fn law_block_is_sent(f: Seq<u8>, k: int)
    requires
        0 <= k < block_count(f),
    ensures
        transfer::send_next(sender_at(k), transfer::ReadBlockView::Bytes(file_block(f, k + 1)))
            matches transfer::SendStepView::Transmit(s) && is_sending_at(f, k, s) && s.retries == 0,
{
}

/// An acknowledgement of any block up to the one on its way: only that one moves the
/// sending side, to the next block or, after the last, to the end with the length of the
/// file (counted modulo 2^64). An old acknowledgement, come again, changes nothing and
/// in particular sends nothing.
pub proof fn law_old_ack_changes_nothing(
    f: Seq<u8>,
    k: int,
    s: transfer::SendingView,
    j: int,
    from: Endpoint,
)
    requires
        is_sending_at(f, k, s),
        0 <= j <= k + 1,
        j > k + 1 - 65536,
    ensures
        ({
            let step = transfer::send_heard(
                s,
                wait::GotView::Packet(from, packet::ack_packet(block_number(j))),
            );
            if j < k + 1 {
                step == transfer::SendStepView::Wait(s)
            } else if k + 1 < block_count(f) {
                step == transfer::SendStepView::More(sender_at(k + 1))
            } else {
                step == transfer::SendStepView::Done(transfer::counted(0, f.len()))
            }
        }),
{
    packet::law_ack_roundtrip(block_number(j));
    lemma_number(k, j);
    lemma_number(k + 1, k + 1);
    lemma_block(f, k + 1);
}

/// After a silence the same packet is sent again, at most `MAX_RETRIES` times.
pub proof fn law_silence_repeats_the_block(f: Seq<u8>, k: int, s: transfer::SendingView)
    requires
        is_sending_at(f, k, s),
    ensures
        s.retries < wait::MAX_RETRIES ==> (transfer::send_heard(s, wait::GotView::Silence)
            matches transfer::SendStepView::Retransmit(t, _) && is_sending_at(f, k, t) && t.packet
            == s.packet && t.retries == s.retries + 1),
        s.retries >= wait::MAX_RETRIES ==> transfer::send_heard(s, wait::GotView::Silence)
            is Fail,
{
}

/// The receiving side starts with nothing stored.
pub proof fn law_receiver_starts(f: Seq<u8>, addr: Endpoint, first: Seq<u8>, peer: Endpoint)
    ensures
        is_receiver_at(f, 0, transfer::recv_start(addr, first, Some(peer)), peer),
        is_receiver_at(f, 0, transfer::recv_start(addr, first, None), peer),
{
}

/// What the receiving side makes of block `j`, where it has stored `k` blocks: `written`
/// is what it has stored.
pub open spec fn block_taken(
    f: Seq<u8>,
    k: int,
    r: transfer::ReceiverView,
    written: Seq<u8>,
    j: int,
    peer: Endpoint,
    step: transfer::RecvStepView,
) -> bool {
    match step {
        transfer::RecvStepView::Store(p) => {
            let now = written + p.payload;
            &&& j == k + 1
            &&& match transfer::recv_stored(p) {
                transfer::StoreStepView::Ack(next, to) => {
                    &&& is_receiver_at(f, k + 1, next, peer)
                    &&& now == f.take((k + 1) * BLOCK_SIZE)
                    &&& next.last == packet::ack_packet(block_number(j))
                    &&& to == peer
                },
                transfer::StoreStepView::Done(d) => {
                    &&& j == block_count(f)
                    &&& now == f
                    &&& d.total == transfer::counted(0, f.len())
                    &&& d.last_block == block_number(j)
                    &&& d.peer == peer
                },
            }
        },
        transfer::RecvStepView::Reply(same, ack, to) => {
            &&& j == k
            &&& same == r
            &&& ack == packet::ack_packet(block_number(j))
            &&& to == peer
        },
        transfer::RecvStepView::Wait(same) => j < k && same == r,
        _ => false,
    }
}

/// Any block up to the next one, come at any time: only the next one is stored, so that
/// what is stored stays the beginning of the file; after the last block it is the file,
/// and its length (modulo 2^64) is reported. The block before, come again, is acknowledged
/// again; older ones are let go.
pub proof fn law_stored_is_a_prefix(
    f: Seq<u8>,
    k: int,
    r: transfer::ReceiverView,
    written: Seq<u8>,
    j: int,
    peer: Endpoint,
)
    requires
        is_receiver_at(f, k, r, peer),
        written == f.take(k * BLOCK_SIZE),
        1 <= j <= k + 1,
        j > k + 1 - 65536,
    ensures
        block_taken(
            f,
            k,
            r,
            written,
            j,
            peer,
            transfer::recv_heard(r, wait::GotView::Packet(peer, block_packet(f, j))),
        ),
{
    let p = block_packet(f, j);
    packet::law_data_roundtrip(block_number(j), file_block(f, j));
    lemma_number(k, j);
    lemma_block(f, j);
    lemma_block(f, k + 1);
    if j == k + 1 {
        lemma_number(k + 1, k + 1);
        let step = transfer::recv_heard(r, wait::GotView::Packet(peer, p));
        assert(step is Store);
        assert(step->Store_0.payload == file_block(f, k + 1));
        assert(f.take(f.len() as int) =~= f);
    }
}

/// The two sides stay in step: the receiving side has stored as many blocks as are
/// acknowledged, or one more.
pub open spec fn in_step(acked: int, stored: int) -> bool {
    acked <= stored <= acked + 1
}

/// Whatever block the sending side has sent so far reaches the receiving side, and
/// whatever acknowledgement the receiving side has sent so far reaches the sending
/// side: the two stay in step. So when the sending side reaches the end, the receiving
/// side has stored the whole file.
pub proof fn law_sides_stay_in_step(
    f: Seq<u8>,
    acked: int,
    s: transfer::SendingView,
    stored: int,
    r: transfer::ReceiverView,
    block: int,
    ack: int,
    sender: Endpoint,
    receiver: Endpoint,
)
    requires
        is_sending_at(f, acked, s),
        is_receiver_at(f, stored, r, sender),
        in_step(acked, stored),
        1 <= block <= acked + 1,
        block > stored + 1 - 65536,
        0 <= ack <= stored,
        ack > acked + 1 - 65536,
    ensures
        transfer::recv_heard(r, wait::GotView::Packet(sender, block_packet(f, block))) is Store
            ==> in_step(acked, stored + 1),
        match transfer::send_heard(
            s,
            wait::GotView::Packet(receiver, packet::ack_packet(block_number(ack))),
        ) {
            transfer::SendStepView::More(t) => t == sender_at(acked + 1) && in_step(
                acked + 1,
                stored,
            ),
            transfer::SendStepView::Wait(t) => t == s,
            _ => false,
        },
{
    law_old_ack_changes_nothing(f, acked, s, ack, receiver);
    law_stored_is_a_prefix(f, stored, r, f.take(stored * BLOCK_SIZE), block, sender);
}

// ---------------------------------------------------------------- whole transfers
/// How far the sending side has come.
pub enum SenderState {
    Running(transfer::SendingView),
    /// It has reached the end, and reports so many bytes.
    Done(u64),
    Failed,
}

/// How far the receiving side has come.
pub enum ReceiverState {
    Running(transfer::ReceiverView),
    /// It has reached the end.
    Done(transfer::Received),
    Failed,
}

/// Both sides of a transfer: how many blocks are acknowledged and how many are stored, and
/// what has been stored.
pub struct Link {
    pub acked: int,
    pub sender: SenderState,
    pub stored: int,
    pub receiver: ReceiverState,
    pub written: Seq<u8>,
}

/// What can happen to a transfer. A packet can come late or more than once, or never.
pub enum LinkEvent {
    /// Block `j` comes to the receiving side.
    Block(int),
    /// The acknowledgement of `j` blocks comes to the sending side.
    Ack(int),
    /// The wait of the sending side ends without a packet.
    SenderWakes(wait::GotView),
    /// The wait of the receiving side ends without a packet.
    ReceiverWakes(wait::GotView),
}

/// Whether this can happen: what comes has been sent, and is not too old.
pub open spec fn can_happen(f: Seq<u8>, l: Link, ev: LinkEvent) -> bool {
    match ev {
        LinkEvent::Block(j) => 1 <= j <= l.acked + 1 && j <= block_count(f) && j > l.stored + 1
            - 65536,
        LinkEvent::Ack(j) => 0 <= j <= l.stored && j > l.acked + 1 - 65536,
        LinkEvent::SenderWakes(got) => got !is Packet,
        LinkEvent::ReceiverWakes(got) => got !is Packet,
    }
}

/// The start of a transfer of `f`, with the first block on its way.
pub open spec fn is_start(f: Seq<u8>, l: Link, peer: Endpoint) -> bool {
    &&& l.acked == 0
    &&& l.stored == 0
    &&& l.written == Seq::<u8>::empty()
    &&& l.sender matches SenderState::Running(s)
    &&& transfer::send_next(
        transfer::send_start(),
        transfer::ReadBlockView::Bytes(file_block(f, 1)),
    ) == transfer::SendStepView::Transmit(s)
    &&& l.receiver matches ReceiverState::Running(r)
    &&& is_receiver_at(f, 0, r, peer)
}

/// The sending side has done this step; where it goes on, it takes the next block of `f`.
pub open spec fn sender_moves(f: Seq<u8>, l: Link, step: transfer::SendStepView) -> Link {
    match step {
        transfer::SendStepView::Transmit(s) => Link { sender: SenderState::Running(s), ..l },
        transfer::SendStepView::Retransmit(s, _) => Link { sender: SenderState::Running(s), ..l },
        transfer::SendStepView::Wait(s) => Link { sender: SenderState::Running(s), ..l },
        transfer::SendStepView::More(t) => match transfer::send_next(
            t,
            transfer::ReadBlockView::Bytes(file_block(f, l.acked + 2)),
        ) {
            transfer::SendStepView::Transmit(s) => Link {
                acked: l.acked + 1,
                sender: SenderState::Running(s),
                ..l
            },
            _ => Link { sender: SenderState::Failed, ..l },
        },
        transfer::SendStepView::Done(n) => Link {
            acked: l.acked + 1,
            sender: SenderState::Done(n),
            ..l
        },
        transfer::SendStepView::Fail(_, _) => Link { sender: SenderState::Failed, ..l },
    }
}

/// The receiving side has done this step; what it was to store is stored.
pub open spec fn receiver_moves(l: Link, step: transfer::RecvStepView) -> Link {
    match step {
        transfer::RecvStepView::Resend(r, _, _) => Link {
            receiver: ReceiverState::Running(r),
            ..l
        },
        transfer::RecvStepView::Wait(r) => Link { receiver: ReceiverState::Running(r), ..l },
        transfer::RecvStepView::Reply(r, _, _) => Link { receiver: ReceiverState::Running(r), ..l },
        transfer::RecvStepView::Store(p) => Link {
            stored: l.stored + 1,
            written: l.written + p.payload,
            receiver: match transfer::recv_stored(p) {
                transfer::StoreStepView::Ack(r, _) => ReceiverState::Running(r),
                transfer::StoreStepView::Done(d) => ReceiverState::Done(d),
            },
            ..l
        },
        transfer::RecvStepView::Fail(_, _) => Link { receiver: ReceiverState::Failed, ..l },
    }
}

/// A transfer of `f` from `from` to `to` after something has happened. What cannot happen
/// changes nothing.
pub open spec fn happened(
    f: Seq<u8>,
    l: Link,
    ev: LinkEvent,
    from: Endpoint,
    to: Endpoint,
) -> Link {
    if !can_happen(f, l, ev) {
        l
    } else {
        match ev {
            LinkEvent::Block(j) => match l.receiver {
                ReceiverState::Running(r) => receiver_moves(
                    l,
                    transfer::recv_heard(r, wait::GotView::Packet(from, block_packet(f, j))),
                ),
                _ => l,
            },
            LinkEvent::Ack(j) => match l.sender {
                SenderState::Running(s) => sender_moves(
                    f,
                    l,
                    transfer::send_heard(
                        s,
                        wait::GotView::Packet(to, packet::ack_packet(block_number(j))),
                    ),
                ),
                _ => l,
            },
            LinkEvent::SenderWakes(got) => match l.sender {
                SenderState::Running(s) => sender_moves(f, l, transfer::send_heard(s, got)),
                _ => l,
            },
            LinkEvent::ReceiverWakes(got) => match l.receiver {
                ReceiverState::Running(r) => receiver_moves(l, transfer::recv_heard(r, got)),
                _ => l,
            },
        }
    }
}

/// A transfer after all this has happened, in this order.
pub open spec fn history_of(
    f: Seq<u8>,
    l: Link,
    evs: Seq<LinkEvent>,
    from: Endpoint,
    to: Endpoint,
) -> Link
    decreases evs.len(),
{
    if evs.len() == 0 {
        l
    } else {
        happened(f, history_of(f, l, evs.drop_last(), from, to), evs.last(), from, to)
    }
}

/// What holds of a transfer of `f` at all times.
pub open spec fn is_sound(f: Seq<u8>, l: Link, from: Endpoint) -> bool {
    &&& in_step(l.acked, l.stored)
    &&& 0 <= l.acked
    &&& match l.sender {
        SenderState::Running(s) => is_sending_at(f, l.acked, s),
        SenderState::Done(n) => l.acked == block_count(f) && n == transfer::counted(0, f.len()),
        SenderState::Failed => l.acked < block_count(f),
    }
    &&& match l.receiver {
        ReceiverState::Running(r) => is_receiver_at(f, l.stored, r, from) && l.written == f.take(
            l.stored * BLOCK_SIZE,
        ),
        ReceiverState::Done(d) => {
            &&& l.stored == block_count(f)
            &&& l.written == f
            &&& d.total == transfer::counted(0, f.len())
            &&& d.last_block == block_number(block_count(f) as int)
            &&& d.peer == from
        },
        ReceiverState::Failed => l.stored < block_count(f) && l.written == f.take(
            l.stored * BLOCK_SIZE,
        ),
    }
}

proof fn lemma_happened(f: Seq<u8>, l: Link, ev: LinkEvent, from: Endpoint, to: Endpoint)
    requires
        is_sound(f, l, from),
    ensures
        is_sound(f, happened(f, l, ev, from, to), from),
{
    if can_happen(f, l, ev) {
        match ev {
            LinkEvent::Block(j) => {
                if let ReceiverState::Running(r) = l.receiver {
                    law_stored_is_a_prefix(f, l.stored, r, l.written, j, from);
                    lemma_block(f, l.stored + 1);
                }
            },
            LinkEvent::Ack(j) => {
                if let SenderState::Running(s) = l.sender {
                    law_old_ack_changes_nothing(f, l.acked, s, j, to);
                    if j == l.acked + 1 && j < block_count(f) {
                        law_block_is_sent(f, l.acked + 1);
                    }
                }
            },
            _ => {},
        }
    }
}

proof fn lemma_history(
    f: Seq<u8>,
    l: Link,
    evs: Seq<LinkEvent>,
    from: Endpoint,
    to: Endpoint,
)
    requires
        is_sound(f, l, from),
    ensures
        is_sound(f, history_of(f, l, evs, from, to), from),
    decreases evs.len(),
{
    if evs.len() > 0 {
        lemma_history(f, l, evs.drop_last(), from, to);
        lemma_happened(
            f,
            history_of(f, l, evs.drop_last(), from, to),
            evs.last(),
            from,
            to,
        );
    }
}

/// However packets get lost, are repeated or come late, and whatever ends the waiting of
/// either side: what has been stored is the beginning of the file. It is the whole file when
/// the receiving side has reached the end, and also when the sending side has; both report
/// its length (modulo 2^64).
pub proof fn law_the_file_arrives(
    f: Seq<u8>,
    start: Link,
    evs: Seq<LinkEvent>,
    from: Endpoint,
    to: Endpoint,
)
    requires
        is_start(f, start, from),
    ensures
        ({
            let l = history_of(f, start, evs, from, to);
            &&& l.written.is_prefix_of(f)
            &&& l.receiver matches ReceiverState::Done(d) ==> l.written == f && d.total
                == transfer::counted(0, f.len())
            &&& l.sender matches SenderState::Done(n) ==> l.written == f && n == transfer::counted(
                0,
                f.len(),
            )
        }),
{
    law_sender_starts();
    law_block_is_sent(f, 0);
    assert(start.written =~= f.take(0));
    lemma_history(f, start, evs, from, to);
    let l = history_of(f, start, evs, from, to);
    if l.stored < block_count(f) {
        lemma_block(f, l.stored + 1);
    }
}

/// The first `n` blocks come, each once and in order, and so do their acknowledgements.
pub open spec fn undisturbed(n: nat) -> Seq<LinkEvent>
    decreases n,
{
    if n == 0 {
        Seq::empty()
    } else {
        undisturbed((n - 1) as nat).push(LinkEvent::Block(n as int)).push(LinkEvent::Ack(n as int))
    }
}

proof fn lemma_undisturbed(f: Seq<u8>, start: Link, n: nat, from: Endpoint, to: Endpoint)
    requires
        is_start(f, start, from),
        n <= block_count(f),
    ensures
        ({
            let l = history_of(f, start, undisturbed(n), from, to);
            &&& is_sound(f, l, from)
            &&& l.acked == n
            &&& l.stored == n
            &&& n < block_count(f) ==> l.sender is Running && l.receiver is Running
            &&& n == block_count(f) ==> l.sender is Done && l.receiver is Done
        }),
    decreases n,
{
    law_sender_starts();
    law_block_is_sent(f, 0);
    assert(start.written =~= f.take(0));
    if n > 0 {
        let m = (n - 1) as nat;
        lemma_undisturbed(f, start, m, from, to);
        let before = undisturbed(m);
        let block = LinkEvent::Block(n as int);
        let ack = LinkEvent::Ack(n as int);
        assert(undisturbed(n) == before.push(block).push(ack));
        assert(before.push(block).push(ack).drop_last() =~= before.push(block));
        assert(before.push(block).drop_last() =~= before);
        let l0 = history_of(f, start, before, from, to);
        let l1 = happened(f, l0, block, from, to);
        assert(history_of(f, start, before.push(block), from, to) == l1);
        lemma_happened(f, l0, block, from, to);
        lemma_happened(f, l1, ack, from, to);
        law_stored_is_a_prefix(f, l0.stored, l0.receiver->Running_0, l0.written, n as int, from);
        law_old_ack_changes_nothing(f, l1.acked, l1.sender->Running_0, n as int, to);
        if n < block_count(f) {
            law_block_is_sent(f, n as int);
        }
    }
}

/// Where nothing disturbs a transfer, both sides reach the end, and the file has been stored.
pub proof fn law_undisturbed_transfer_ends(
    f: Seq<u8>,
    start: Link,
    from: Endpoint,
    to: Endpoint,
)
    requires
        is_start(f, start, from),
    ensures
        ({
            let l = history_of(f, start, undisturbed(block_count(f)), from, to);
            &&& l.sender == SenderState::Done(transfer::counted(0, f.len()))
            &&& l.receiver is Done
            &&& l.written == f
        }),
{
    lemma_undisturbed(f, start, block_count(f), from, to);
}

/// The last acknowledgement, of the last block, ends the transfer for the sending side,
/// also when it comes in answer to a repetition of that block.
pub proof fn law_lost_last_ack_is_repeated(
    f: Seq<u8>,
    s: transfer::SendingView,
    d: transfer::Received,
    from: Endpoint,
)
    requires
        is_sending_at(f, block_count(f) - 1, s),
        d.last_block == block_number(block_count(f) as int),
    ensures
        transfer::dally_reply(d.last_block, s.packet) == Some(
            packet::ack_packet(d.last_block),
        ),
        transfer::send_heard(s, wait::GotView::Packet(from, packet::ack_packet(d.last_block)))
            == transfer::SendStepView::Done(transfer::counted(0, f.len())),
{
    let k = block_count(f) - 1;
    packet::law_data_roundtrip(block_number(k + 1), file_block(f, k + 1));
    law_old_ack_changes_nothing(f, k, s, k + 1, from);
}

/// A side that its user has stopped tells the other side so, and that side understands:
/// it fails with the error that is described as a cancellation. Where the other side has
/// not answered yet, it is told where the request went.
pub proof fn law_cancellation_is_understood(
    q: client::PutRequestView,
    s: transfer::SendingView,
    r: transfer::ReceiverView,
    from: Endpoint,
)
    ensures
        ({
            let word = packet::error_packet(0, crate::error::CANCEL_MSG@);
            &&& transfer::send_heard(s, wait::GotView::Cancelled) == transfer::SendStepView::Fail(
                Some(word),
                crate::error::ErrorView::Cancelled,
            )
            &&& transfer::recv_heard(r, wait::GotView::Cancelled) == transfer::RecvStepView::Fail(
                Some((word, transfer::recv_target(r))),
                crate::error::ErrorView::Cancelled,
            )
            &&& client::put_heard(q, wait::GotView::Cancelled) == client::PutStepView::Fail(
                Some((word, q.addr)),
                crate::error::ErrorView::Cancelled,
            )
            &&& client::put_heard(q, wait::GotView::Packet(from, word))
                == client::PutStepView::Fail(None, packet::error_of(word))
            &&& transfer::send_heard(s, wait::GotView::Packet(from, word))
                == transfer::SendStepView::Fail(None, packet::error_of(word))
            &&& transfer::recv_heard(r, wait::GotView::Packet(from, word))
                == transfer::RecvStepView::Fail(None, packet::error_of(word))
            &&& packet::error_of(word) is Remote
            &&& packet::error_of(word)->Remote_0 == 0
            &&& vstd::utf8::decode_utf8(packet::until_nul(word.skip(4)))
                == crate::error::CANCEL_MSG@
        }),
{
    reveal_strlit("Transfer cancelled");
    assert(!crate::error::CANCEL_MSG@.contains('\0'));
    packet::law_error_roundtrip(0, crate::error::CANCEL_MSG@);
}

} // verus!
