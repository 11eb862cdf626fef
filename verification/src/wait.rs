//! Waiting for a packet in short stretches, so that a request to stop is noticed at
//! once, and sorting what arrives. Times are in nanoseconds on one monotonic clock.
use crate::error;
use crate::error::TftpError;
use crate::packet;
use crate::peer::Endpoint;
use vstd::prelude::*;

verus! {

/// How long an answer is waited for.
pub const TIMEOUT: u64 = 3_000_000_000;

/// The longest stretch of waiting before the request to stop is looked at again.
pub const CANCEL_POLL: u64 = 100_000_000;

/// The shortest stretch of waiting: a socket takes no timeout of zero.
pub const MIN_WAIT: u64 = 1_000_000;

/// Room for one packet.
pub const RECV_BUF: usize = 2048;

/// A packet that is waited for is asked for again at most this many times.
pub const MAX_RETRIES: u32 = 5;

/// What kind of failure the system reported, as far as it matters here.
#[derive(Clone, Copy, Debug, PartialEq, Eq, Structural)]
pub enum IoKind {
    WouldBlock,
    TimedOut,
    Interrupted,
    ConnectionReset,
    NotFound,
    PermissionDenied,
    Other,
}

/// A failure that the system reported.
#[derive(Debug)]
pub struct IoFailure {
    pub kind: IoKind,
    /// Its description.
    pub text: String,
}

/// `IoFailure` with its text as a sequence of characters.
pub struct IoView {
    pub kind: IoKind,
    pub text: Seq<char>,
}

impl View for IoFailure {
    type V = IoView;

    open spec fn view(&self) -> IoView {
        IoView { kind: self.kind, text: self.text@ }
    }
}

impl IoFailure {
    /// The failure of a transfer that this failure of the system means.
    pub fn into_error(self) -> (r: TftpError)
        ensures
            r@ == error::ErrorView::Io(self@.text),
    {
        TftpError::Io(self.text)
    }
}

/// Failures of a receiving socket that do not end the wait: nothing came in time, a
/// signal interrupted the call, or an earlier packet could not be delivered.
pub open spec fn transient(k: IoKind) -> bool {
    k == IoKind::WouldBlock || k == IoKind::TimedOut || k == IoKind::Interrupted || k
        == IoKind::ConnectionReset
}

/// Whether a failure of a receiving socket does not end the wait.
pub fn is_transient(k: IoKind) -> (r: bool)
    ensures
        r == transient(k),
{
    k == IoKind::WouldBlock || k == IoKind::TimedOut || k == IoKind::Interrupted || k
        == IoKind::ConnectionReset
}

/// What to do next while waiting for a packet.
#[derive(Clone, Copy, Debug, PartialEq, Eq, Structural)]
pub enum Poll {
    /// The user has stopped the transfer.
    Cancelled,
    /// The time is up.
    Expired,
    /// Read from the socket, with this timeout.
    Read(u64),
}

/// The next step of a wait that ends at `deadline`.
pub open spec fn poll_step(cancelled: bool, now: u64, deadline: u64) -> Poll {
    if cancelled {
        Poll::Cancelled
    } else if now >= deadline {
        Poll::Expired
    } else if deadline - now > CANCEL_POLL {
        Poll::Read(CANCEL_POLL)
    } else if deadline - now < MIN_WAIT {
        Poll::Read(MIN_WAIT)
    } else {
        Poll::Read((deadline - now) as u64)
    }
}

/// The next step of a wait that ends at `deadline`.
pub fn poll_wait(cancelled: bool, now: u64, deadline: u64) -> (r: Poll)
    ensures
        r == poll_step(cancelled, now, deadline),
{
    if cancelled {
        return Poll::Cancelled;
    }
    if now >= deadline {
        return Poll::Expired;
    }
    let left: u64 = deadline - now;
    if left > CANCEL_POLL {
        Poll::Read(CANCEL_POLL)
    } else if left < MIN_WAIT {
        Poll::Read(MIN_WAIT)
    } else {
        Poll::Read(left)
    }
}

/// What to do with what a read from the socket gave.
#[derive(Debug)]
pub enum Arrival {
    /// Hand the packet on.
    Deliver,
    /// The packet belongs to no transfer of this socket: send this back, wait on.
    Refuse(Vec<u8>),
    /// Wait on.
    Again,
    Fail(TftpError),
}

pub enum ArrivalView {
    Deliver,
    Refuse(Seq<u8>),
    Again,
    Fail(error::ErrorView),
}

impl View for Arrival {
    type V = ArrivalView;

    open spec fn view(&self) -> ArrivalView {
        match self {
            Arrival::Deliver => ArrivalView::Deliver,
            Arrival::Refuse(b) => ArrivalView::Refuse(b@),
            Arrival::Again => ArrivalView::Again,
            Arrival::Fail(e) => ArrivalView::Fail(e@),
        }
    }
}

/// What a packet from `from` deserves: where the other side of the transfer is known,
/// anyone else is told that the transfer ID is unknown.
pub open spec fn arrival(expect: Option<Endpoint>, from: Endpoint) -> ArrivalView {
    if expect is Some && expect->0 != from {
        ArrivalView::Refuse(packet::error_packet(5, "Unknown transfer ID"@))
    } else {
        ArrivalView::Deliver
    }
}

/// Sorts what a read from the socket gave: the sender of a packet, or a failure.
/// A packet of a stranger is refused and does not disturb the wait.
pub fn recv_packet(expect: Option<Endpoint>, got: Result<Endpoint, IoFailure>) -> (r: Arrival)
    ensures
        match got {
            Ok(from) => r@ == arrival(expect, from),
            Err(e) => r@ == if transient(e.kind) {
                ArrivalView::Again
            } else {
                ArrivalView::Fail(error::ErrorView::Io(e.text@))
            },
        },
{
    match got {
        Ok(from) => {
            match expect {
                Some(p) => if p != from {
                    return Arrival::Refuse(packet::build_error(5, "Unknown transfer ID"));
                },
                None => {},
            }
            Arrival::Deliver
        },
        Err(e) => if is_transient(e.kind) {
            Arrival::Again
        } else {
            Arrival::Fail(e.into_error())
        },
    }
}

/// How a wait for a packet ended.
#[derive(Debug)]
pub enum Got {
    /// The user has stopped the transfer.
    Cancelled,
    /// Nothing came in time.
    Silence,
    Failed(IoFailure),
    /// A packet, and who sent it.
    Packet(Endpoint, Vec<u8>),
}

pub enum GotView {
    Cancelled,
    Silence,
    Failed(IoView),
    Packet(Endpoint, Seq<u8>),
}

impl View for Got {
    type V = GotView;

    open spec fn view(&self) -> GotView {
        match self {
            Got::Cancelled => GotView::Cancelled,
            Got::Silence => GotView::Silence,
            Got::Failed(e) => GotView::Failed(e@),
            Got::Packet(from, p) => GotView::Packet(*from, p@),
        }
    }
}

/// What to do after one read into a buffer that is to be filled.
#[derive(Debug)]
pub enum Filled {
    /// Read on behind this many bytes.
    More(usize),
    /// The buffer holds this many bytes and will get no more.
    End(usize),
    Fail(IoFailure),
}

/// One read into a buffer of `want` bytes that holds `filled`: reading goes on until it
/// is full or the input ends, however little one read gives.
pub fn read_full(filled: usize, want: usize, got: Result<usize, IoFailure>) -> (r: Filled)
    requires
        filled <= want,
        got matches Ok(n) ==> filled + n <= want,
    ensures
        match got {
            Ok(n) => r == if n == 0 || filled + n == want {
                Filled::End((filled + n) as usize)
            } else {
                Filled::More((filled + n) as usize)
            },
            Err(e) => if e.kind == IoKind::Interrupted {
                r == Filled::More(filled)
            } else {
                r matches Filled::Fail(f) && f@ == e@
            },
        },
{
    match got {
        Ok(n) => if n == 0 || filled + n == want {
            Filled::End(filled + n)
        } else {
            Filled::More(filled + n)
        },
        Err(e) => if e.kind == IoKind::Interrupted {
            Filled::More(filled)
        } else {
            Filled::Fail(e)
        },
    }
}

/// A wait ends no later than its deadline plus the shortest stretch, and a request to
/// stop is looked at again after `CANCEL_POLL` at the latest.
pub proof fn law_poll_is_prompt(cancelled: bool, now: u64, deadline: u64)
    ensures
        cancelled ==> poll_step(cancelled, now, deadline) == Poll::Cancelled,
        poll_step(cancelled, now, deadline) matches Poll::Read(t) ==> {
            &&& MIN_WAIT <= t <= CANCEL_POLL
            &&& now + t <= deadline + MIN_WAIT
        },
        poll_step(cancelled, now, deadline) == Poll::Expired ==> now >= deadline,
{
}

/// A packet of a stranger is answered with an error of code 5 and never reaches the transfer.
pub proof fn law_stranger_is_refused(peer: Endpoint, from: Endpoint)
    requires
        from != peer,
    ensures
        arrival(Some(peer), from) is Refuse,
        packet::word_at(arrival(Some(peer), from)->Refuse_0, 0) == packet::OP_ERROR,
        packet::word_at(arrival(Some(peer), from)->Refuse_0, 2) == 5,
{
    reveal_strlit("Unknown transfer ID");
    assert(!"Unknown transfer ID"@.contains('\0'));
    packet::law_error_roundtrip(5, "Unknown transfer ID"@);
}

/// How long to wait for a packet: until the deadline, but a tenth of a second at a time, and
/// a thousandth at least. The wait is over when the user stops or the deadline has come, and
/// not before.
pub proof fn law_how_long_to_wait(now: u64, deadline: u64)
    ensures
        poll_step(true, now, deadline) == Poll::Cancelled,
        now >= deadline ==> poll_step(false, now, deadline) == Poll::Expired,
        now < deadline ==> (poll_step(false, now, deadline) matches Poll::Read(t) && {
            &&& deadline - now > 100_000_000 ==> t == 100_000_000
            &&& deadline - now < 1_000_000 ==> t == 1_000_000
            &&& 1_000_000 <= deadline - now <= 100_000_000 ==> t == deadline - now
        }),
{
}

/// Who is expected is heard, and so is everybody where nobody is expected; any other is told
/// that it does not belong to this transfer. Failures that pass by themselves are no failures.
pub proof fn law_who_is_heard(peer: Endpoint, from: Endpoint, k: IoKind)
    ensures
        arrival(None, from) == ArrivalView::Deliver,
        arrival(Some(peer), peer) == ArrivalView::Deliver,
        from != peer ==> arrival(Some(peer), from) == ArrivalView::Refuse(
            packet::error_packet(5, "Unknown transfer ID"@),
        ),
        transient(k) <==> match k {
            IoKind::WouldBlock => true,
            IoKind::TimedOut => true,
            IoKind::Interrupted => true,
            IoKind::ConnectionReset => true,
            IoKind::NotFound => false,
            IoKind::PermissionDenied => false,
            IoKind::Other => false,
        },
{
}

} // verus!
