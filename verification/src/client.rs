//! The side that asks: sending a file to a server, and getting one from it.
use crate::error;
use crate::error::{TftpError, CANCEL_MSG};
use crate::packet;
use crate::packet::{Mode, OP_ACK, OP_ERROR, OP_OACK, OP_RRQ, OP_WRQ};
use crate::peer::{Endpoint, Ip};
use crate::text;
use crate::transfer;
use crate::transfer::Receiver;
use crate::wait;
use crate::wait::{Got, IoFailure, MAX_RETRIES};
use vstd::prelude::*;

verus! {

// ---------------------------------------------------------------- addresses
/// The host name to look up for what the user wrote.
pub fn lookup_name(server: &str) -> (r: String)
    ensures
        r@ == text::trimmed(server@),
{
    text::trim_text(server)
}

/// The address to use of those that a name stands for: the first IPv4 address, else the
/// first of all.
pub open spec fn preferred(addrs: Seq<Endpoint>) -> Option<Endpoint>
    decreases addrs.len(),
{
    if addrs.len() == 0 {
        None
    } else if addrs[0].ip is V4 {
        Some(addrs[0])
    } else {
        match preferred(addrs.skip(1)) {
            Some(a) => if a.ip is V4 {
                Some(a)
            } else {
                Some(addrs[0])
            },
            None => Some(addrs[0]),
        }
    }
}

/// The address preferred is an IPv4 address if there is any, and then the first of them.
pub proof fn law_ipv4_is_preferred(addrs: Seq<Endpoint>)
    ensures
        addrs.len() == 0 <==> preferred(addrs) is None,
        preferred(addrs) matches Some(a) ==> addrs.contains(a),
        forall|i: int|
            0 <= i < addrs.len() && (#[trigger] addrs[i]).ip is V4 && (forall|j: int|
                0 <= j < i ==> !((#[trigger] addrs[j]).ip is V4)) ==> preferred(addrs) == Some(
                addrs[i],
            ),
        (forall|i: int| 0 <= i < addrs.len() ==> !((#[trigger] addrs[i]).ip is V4)) && addrs.len()
            > 0 ==> preferred(addrs) == Some(addrs[0]),
    decreases addrs.len(),
{
    if addrs.len() > 0 {
        let t = addrs.skip(1);
        law_ipv4_is_preferred(t);
        if addrs[0].ip is V4 {
            assert(addrs.contains(addrs[0]));
        } else {
            assert(addrs.contains(addrs[0]));
            if preferred(t) is Some {
                let k = choose|k: int| 0 <= k < t.len() && t[k] == preferred(t)->0;
                assert(addrs[k + 1] == t[k]);
            }
            assert forall|i: int|
                0 <= i < addrs.len() && (#[trigger] addrs[i]).ip is V4 && (forall|j: int|
                    0 <= j < i ==> !((#[trigger] addrs[j]).ip is V4)) implies preferred(addrs)
                == Some(addrs[i]) by {
                assert(t[i - 1] == addrs[i]);
                assert forall|j: int| 0 <= j < i - 1 implies !((#[trigger] t[j]).ip is V4) by {
                    assert(t[j] == addrs[j + 1]);
                }
            }
            if forall|i: int| 0 <= i < addrs.len() ==> !((#[trigger] addrs[i]).ip is V4) {
                assert forall|i: int| 0 <= i < t.len() implies !((#[trigger] t[i]).ip is V4) by {
                    assert(t[i] == addrs[i + 1]);
                }
            }
        }
    }
}

/// Chooses among the addresses that a lookup gave.
pub fn resolve(found: Result<Vec<Endpoint>, IoFailure>) -> (r: Result<Endpoint, TftpError>)
    ensures
        match found {
            Ok(addrs) => match r {
                Ok(a) => preferred(addrs@) == Some(a),
                Err(e) => addrs@.len() == 0 && e@ == error::ErrorView::Protocol(
                    "не удалось разрешить адрес"@,
                ),
            },
            Err(f) => r matches Err(e) && e@ == error::ErrorView::Io(f.text@),
        },
{
    let addrs = match found {
        Ok(v) => v,
        Err(f) => {
            return Err(f.into_error());
        },
    };
    proof {
        law_ipv4_is_preferred(addrs@);
    }
    let mut i: usize = 0;
    while i < addrs.len()
        invariant
            i <= addrs.len(),
            forall|j: int| 0 <= j < i ==> !((#[trigger] addrs@[j]).ip is V4),
            forall|i: int|
                0 <= i < addrs@.len() && (#[trigger] addrs@[i]).ip is V4 && (forall|j: int|
                    0 <= j < i ==> !((#[trigger] addrs@[j]).ip is V4)) ==> preferred(addrs@)
                    == Some(addrs@[i]),
            found is Ok,
            found->Ok_0@ == addrs@,
        decreases addrs.len() - i,
    {
        if addrs[i].ip.is_ipv4() {
            return Ok(addrs[i]);
        }
        i = i + 1;
    }
    if addrs.len() > 0 {
        Ok(addrs[0])
    } else {
        Err(error::protocol("не удалось разрешить адрес"))
    }
}

/// The address that a socket is bound to, to talk to `addr`: any, of the same family.
pub fn bind_for(addr: &Endpoint) -> (r: &'static str)
    ensures
        r@ == if addr.ip is V4 {
            "0.0.0.0:0"@
        } else {
            "[::]:0"@
        },
{
    if addr.ip.is_ipv4() {
        "0.0.0.0:0"
    } else {
        "[::]:0"
    }
}

/// The addresses to bind the socket of a transfer to, in the order in which to try them.
/// A server that listens on any address should answer from the one the request came to;
/// `routed` is the local address on the way to the client, where it is known.
pub open spec fn data_sources(local: Ip, routed: Option<Ip>) -> Seq<Ip> {
    let any = |a: Ip| a == Ip::V4(0) || a == Ip::V6(0);
    if any(local) && routed is Some && !any(routed->0) {
        seq![routed->0, local]
    } else {
        seq![local]
    }
}

/// The addresses to bind the socket of a transfer to, in the order in which to try them.
pub fn data_socket(local: Ip, routed: Option<Ip>) -> (r: Vec<Ip>)
    ensures
        r@ == data_sources(local, routed),
{
    let mut v: Vec<Ip> = Vec::new();
    if local.is_unspecified() {
        match routed {
            Some(ip) => if !ip.is_unspecified() {
                v.push(ip);
            },
            None => {},
        }
    }
    v.push(local);
    assert(v@ =~= data_sources(local, routed));
    v
}

// ---------------------------------------------------------------- sending a file
/// A file that is to be sent, and is open.
#[derive(Debug)]
pub struct PutFile {
    pub mode: Mode,
    /// The number of bytes on the wire, where it is known: a text grows on its way.
    pub total: Option<u64>,
}

/// What a file, opened or not, means for sending it. The length of an open file may be unknown.
pub open spec fn put_plan(opened: Result<Option<u64>, IoFailure>, mode: Mode) -> Result<
    PutFile,
    error::ErrorView,
> {
    match opened {
        Ok(len) => Ok(
            PutFile {
                mode,
                total: if mode == Mode::Octet {
                    len
                } else {
                    None
                },
            },
        ),
        Err(e) => Err(error::ErrorView::Io(e.text@)),
    }
}

/// The failure in a result, as texts.
pub open spec fn failed_view<T>(r: Result<T, TftpError>) -> Result<T, error::ErrorView> {
    match r {
        Ok(x) => Ok(x),
        Err(e) => Err(e@),
    }
}

/// Plans to send a file byte for byte.
pub fn put_file(opened: Result<Option<u64>, IoFailure>) -> (r: Result<PutFile, TftpError>)
    ensures
        failed_view(r) == put_plan(opened, Mode::Octet),
{
    put_file_mode(opened, Mode::Octet)
}

/// Plans to send a file in the given mode.
pub fn put_file_mode(opened: Result<Option<u64>, IoFailure>, mode: Mode) -> (r: Result<
    PutFile,
    TftpError,
>)
    ensures
        failed_view(r) == put_plan(opened, mode),
{
    match opened {
        Err(e) => Err(e.into_error()),
        Ok(len) => {
            let total = match mode {
                Mode::Octet => len,
                Mode::Netascii => None,
            };
            Ok(PutFile { mode, total })
        },
    }
}

/// A request to write that has been sent and not yet been answered.
#[derive(Debug)]
pub struct PutRequest {
    /// The packet.
    pub wrq: Vec<u8>,
    /// Where it goes.
    pub addr: Endpoint,
    /// How often it has been repeated.
    pub retries: u32,
}

#[verifier::ext_equal]
pub struct PutRequestView {
    pub wrq: Seq<u8>,
    pub addr: Endpoint,
    pub retries: u32,
}

impl View for PutRequest {
    type V = PutRequestView;

    open spec fn view(&self) -> PutRequestView {
        PutRequestView { wrq: self.wrq@, addr: self.addr, retries: self.retries }
    }
}

/// What follows from the answer to a request to write.
#[derive(Debug)]
pub enum PutStep {
    /// Send the request again after a silence; a log line reports it.
    Retry(PutRequest, String),
    /// Wait on, until the same deadline.
    Wait(PutRequest),
    /// The request is granted. Its sender is from now on the other side of the transfer.
    Granted(Endpoint),
    /// Give up, after sending this packet to this address, if any.
    Fail(Option<(Vec<u8>, Endpoint)>, TftpError),
}

pub enum PutStepView {
    Retry(PutRequestView, Seq<char>),
    Wait(PutRequestView),
    Granted(Endpoint),
    Fail(Option<(Seq<u8>, Endpoint)>, error::ErrorView),
}

impl View for PutStep {
    type V = PutStepView;

    open spec fn view(&self) -> PutStepView {
        match self {
            PutStep::Retry(q, m) => PutStepView::Retry(q@, m@),
            PutStep::Wait(q) => PutStepView::Wait(q@),
            PutStep::Granted(p) => PutStepView::Granted(*p),
            PutStep::Fail(p, e) => PutStepView::Fail(transfer::parcel_view(*p), e@),
        }
    }
}

/// What follows from what came after a request to write. Only the acknowledgement of
/// block 0 grants it, whoever it comes from. If the user stops, the other side is told so
/// where the request went.
pub open spec fn put_heard(q: PutRequestView, got: wait::GotView) -> PutStepView {
    match got {
        wait::GotView::Cancelled => PutStepView::Fail(
            Some((packet::error_packet(0, CANCEL_MSG@), q.addr)),
            error::ErrorView::Cancelled,
        ),
        wait::GotView::Failed(e) => PutStepView::Fail(None, error::ErrorView::Io(e.text)),
        wait::GotView::Silence => if q.retries >= MAX_RETRIES {
            PutStepView::Fail(None, error::ErrorView::Timeout)
        } else {
            PutStepView::Retry(
                PutRequestView { retries: (q.retries + 1) as u32, ..q },
                transfer::repeat_line(" WRQ"@, (q.retries + 1) as nat),
            )
        },
        wait::GotView::Packet(from, p) => if p.len() < 4 {
            PutStepView::Wait(q)
        } else {
            let op = packet::word_at(p, 0);
            if op == OP_ERROR {
                PutStepView::Fail(None, packet::error_of(p))
            } else if op == OP_ACK && packet::word_at(p, 2) == 0 {
                PutStepView::Granted(from)
            } else if op == OP_OACK {
                PutStepView::Fail(
                    Some((packet::opcode_refusal(op).0, from)),
                    packet::opcode_refusal(op).1,
                )
            } else {
                PutStepView::Wait(q)
            }
        },
    }
}

/// The request to `addr` to write `filename`, and the log line that announces it.
pub fn put_reader(addr: Endpoint, filename: &str, mode: Mode, ip: &str) -> (r: (PutRequest, String))
    ensures
        r.0@ == (PutRequestView {
            wrq: packet::rq_packet(OP_WRQ, filename@, mode),
            addr,
            retries: 0,
        }),
        r.1@ == "→ WRQ "@ + filename@ + " на "@ + ip@,
{
    let mut m = "→ WRQ ".to_owned();
    m.append(filename);
    m.append(" на ");
    m.append(ip);
    (PutRequest { wrq: packet::build_rq(OP_WRQ, filename, mode), addr, retries: 0 }, m)
}

impl PutRequest {
    /// Takes what came after the request.
    pub fn heard(self, got: Got) -> (r: PutStep)
        ensures
            r@ == put_heard(self@, got@),
    {
        match got {
            Got::Cancelled => PutStep::Fail(
                Some((packet::build_error(0, CANCEL_MSG), self.addr)),
                TftpError::Cancelled,
            ),
            Got::Failed(e) => PutStep::Fail(None, e.into_error()),
            Got::Silence => {
                if self.retries >= MAX_RETRIES {
                    return PutStep::Fail(None, TftpError::Timeout);
                }
                let mut q = self;
                q.retries = q.retries + 1;
                let line = transfer::repeat_text(" WRQ", q.retries);
                PutStep::Retry(q, line)
            },
            Got::Packet(from, p) => {
                if p.len() < 4 {
                    return PutStep::Wait(self);
                }
                let op: u16 = packet::opcode_of(&p);
                if op == OP_ERROR {
                    PutStep::Fail(None, packet::parse_error(&p))
                } else if op == OP_ACK && packet::block_of(&p) == 0 {
                    PutStep::Granted(from)
                } else if op == OP_OACK {
                    let (reply, e) = packet::reject_opcode(op);
                    PutStep::Fail(Some((reply, from)), e)
                } else {
                    PutStep::Wait(self)
                }
            },
        }
    }
}

/// The log line when a request has been granted from `ip`.
pub fn granted_line(ip: &str) -> (r: String)
    ensures
        r@ == "  запрос принят, сервер отвечает с "@ + ip@,
{
    let mut m = "  запрос принят, сервер отвечает с ".to_owned();
    m.append(ip);
    m
}

/// The log line at the end of sending.
pub const SENT_LINE: &'static str = "✓ Передача завершена";

/// A grant is all that starts a transfer: an answer that is no acknowledgement of block 0
/// and no refusal leaves the request as it is, and a silence sends the same packet again.
pub proof fn law_only_ack_zero_grants(q: PutRequestView, from: Endpoint, p: Seq<u8>)
    ensures
        put_heard(q, wait::GotView::Packet(from, packet::ack_packet(0))) == PutStepView::Granted(
            from,
        ),
        put_heard(q, wait::GotView::Packet(from, p)) is Granted ==> p.len() >= 4
            && packet::word_at(p, 0) == OP_ACK && packet::word_at(p, 2) == 0,
        put_heard(q, wait::GotView::Silence) matches PutStepView::Retry(t, _) ==> t.wrq == q.wrq
            && t.addr == q.addr,
{
    packet::law_ack_roundtrip(0);
}

// ---------------------------------------------------------------- getting a file
/// The suffix of the name under which a file is kept until it is complete.
pub const PART_SUFFIX: &'static str = ".part";

/// Where the data of a file goes until it is complete: `file.ext` is first `file.ext.part`.
pub fn part_path(path: &str) -> (r: String)
    ensures
        r@ == path@ + ".part"@,
{
    let mut s = path.to_owned();
    s.append(PART_SUFFIX);
    s
}

/// Starts getting a file byte for byte: the receiving side, whose first packet is the
/// request to `addr`, and the log line that announces it.
pub fn get_file(addr: Endpoint, ip: &str, filename: &str) -> (r: (Receiver, String))
    ensures
        r.0@ == transfer::recv_start(
            addr,
            packet::rq_packet(OP_RRQ, filename@, Mode::Octet),
            None,
        ),
        r.1@ == "→ RRQ "@ + filename@ + " с "@ + ip@,
{
    get_file_mode(addr, ip, filename, Mode::Octet)
}

/// The same in the given mode.
pub fn get_file_mode(addr: Endpoint, ip: &str, filename: &str, mode: Mode) -> (r: (
    Receiver,
    String,
))
    ensures
        r.0@ == transfer::recv_start(addr, packet::rq_packet(OP_RRQ, filename@, mode), None),
        r.1@ == "→ RRQ "@ + filename@ + " с "@ + ip@,
{
    let mut m = "→ RRQ ".to_owned();
    m.append(filename);
    m.append(" с ");
    m.append(ip);
    let rq = packet::build_rq(OP_RRQ, filename, mode);
    (transfer::recv_blocks_deferred(addr, rq, None), m)
}

/// Starts getting a short answer into memory; nothing is logged.
pub fn fetch_bytes(addr: Endpoint, name: &str) -> (r: Receiver)
    ensures
        r@ == transfer::recv_start(addr, packet::rq_packet(OP_RRQ, name@, Mode::Octet), None),
{
    transfer::recv_blocks_deferred(addr, packet::build_rq(OP_RRQ, name, Mode::Octet), None)
}

/// What to do with the incomplete file when the transfer has ended.
#[derive(Debug)]
pub enum GetEnd {
    /// Give it its name.
    Rename,
    /// Remove it; why.
    Discard(TftpError),
}

/// A file is kept if and only if the whole transfer succeeded: otherwise nothing is left behind.
pub fn get_ended(res: Result<(), TftpError>) -> (r: GetEnd)
    ensures
        match res {
            Ok(_) => r is Rename,
            Err(e) => r matches GetEnd::Discard(f) && f@ == e@,
        },
{
    match res {
        Ok(_) => GetEnd::Rename,
        Err(e) => GetEnd::Discard(e),
    }
}

/// The outcome when the file has been renamed or could not be; in the second case the
/// incomplete file is to be removed. `Ok` holds a log line.
pub fn get_renamed(res: Result<(), IoFailure>) -> (r: Result<String, TftpError>)
    ensures
        match res {
            Ok(_) => r matches Ok(m) && m@ == "✓ Приём завершён"@,
            Err(f) => r matches Err(e) && e@ == error::ErrorView::Io(f.text@),
        },
{
    match res {
        Ok(_) => Ok("✓ Приём завершён".to_owned()),
        Err(f) => Err(f.into_error()),
    }
}

/// From where a transfer goes out: from the address on the way to the client, where the
/// server listens on all; otherwise, and if that fails, from where it listens.
pub proof fn law_transfer_goes_out_from(local: Ip, routed: Option<Ip>)
    ensures
        (local == Ip::V4(0) || local == Ip::V6(0)) && routed is Some && routed != Some(Ip::V4(0))
            && routed != Some(Ip::V6(0)) ==> data_sources(local, routed) == seq![routed->0, local],
        !(local == Ip::V4(0) || local == Ip::V6(0)) || routed is None || routed == Some(Ip::V4(0))
            || routed == Some(Ip::V6(0)) ==> data_sources(local, routed) == seq![local],
{
}

/// A file is sent in the mode that was asked for; how much it will be is known only where it
/// goes out as it is.
pub proof fn law_plan_to_send(len: Option<u64>, e: IoFailure, mode: Mode)
    ensures
        put_plan(Ok(len), Mode::Octet) == Ok::<_, error::ErrorView>(
            PutFile { mode: Mode::Octet, total: len },
        ),
        put_plan(Ok(len), Mode::Netascii) == Ok::<_, error::ErrorView>(
            PutFile { mode: Mode::Netascii, total: None },
        ),
        put_plan(Err(e), mode) == Err::<PutFile, _>(error::ErrorView::Io(e.text@)),
{
}

/// What follows from the answer to a request to write: the acknowledgement of block 0 grants
/// it, and whoever sent it is the other side; an error refuses it; options that nobody asked
/// for are refused; and everything else is let go.
pub proof fn law_answer_to_a_request(q: PutRequestView, from: Endpoint, p: Seq<u8>)
    ensures
        p.len() < 4 ==> put_heard(q, wait::GotView::Packet(from, p)) == PutStepView::Wait(q),
        p.len() >= 4 && p[0] == 0 && p[1] == 4 && p[2] == 0 && p[3] == 0 ==> put_heard(
            q,
            wait::GotView::Packet(from, p),
        ) == PutStepView::Granted(from),
        p.len() >= 4 && p[0] == 0 && p[1] == 5 ==> put_heard(q, wait::GotView::Packet(from, p))
            == PutStepView::Fail(None, packet::error_of(p)),
        p.len() >= 4 && p[0] == 0 && p[1] == 6 ==> put_heard(q, wait::GotView::Packet(from, p))
            == PutStepView::Fail(
            Some((packet::opcode_refusal(6).0, from)),
            packet::opcode_refusal(6).1,
        ),
        p.len() >= 4 && !(p[0] == 0 && (p[1] == 5 || p[1] == 6)) && !(p[0] == 0 && p[1] == 4 && p[2]
            == 0 && p[3] == 0) ==> put_heard(q, wait::GotView::Packet(from, p))
            == PutStepView::Wait(q),
{
    if p.len() >= 4 {
        assert(p[0] * 256 + p[1] <= 0xffff && p[2] * 256 + p[3] <= 0xffff);
    }
}

/// A request that nobody answers is sent again, five times at most; then it is given up.
pub proof fn law_request_is_repeated(q: PutRequestView, e: wait::IoView)
    ensures
        q.retries < 5 ==> put_heard(q, wait::GotView::Silence) == PutStepView::Retry(
            PutRequestView { retries: (q.retries + 1) as u32, ..q },
            "  таймаут, повтор"@ + " WRQ"@ + " "@ + ("("@ + text::dec((q.retries + 1) as nat) + "/"@
                + text::dec(5) + ")"@),
        ),
        q.retries >= 5 ==> put_heard(q, wait::GotView::Silence) == PutStepView::Fail(
            None,
            error::ErrorView::Timeout,
        ),
        put_heard(q, wait::GotView::Failed(e)) == PutStepView::Fail(
            None,
            error::ErrorView::Io(e.text),
        ),
        put_heard(q, wait::GotView::Cancelled) == PutStepView::Fail(
            Some((packet::error_packet(0, "Transfer cancelled"@), q.addr)),
            error::ErrorView::Cancelled,
        ),
{
}

} // verus!
