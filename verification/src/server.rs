//! The TFTP server: which requests start a transfer, and what becomes of each transfer.
use crate::error;
use crate::error::TftpError;
use crate::packet;
use crate::packet::{Mode, OP_RRQ, OP_WRQ};
use crate::peer::Endpoint;
use crate::text;
use crate::transfer;
use crate::transfer::{Received, Receiver};
use crate::wait;
use crate::wait::IoFailure;
use vstd::prelude::*;

verus! {

/// A transfer that is going on: who asked for it, and the name of the file.
#[derive(Debug)]
pub struct Active {
    pub from: Endpoint,
    pub name: String,
}

impl View for Active {
    type V = (Endpoint, Seq<char>);

    open spec fn view(&self) -> (Endpoint, Seq<char>) {
        (self.from, self.name@)
    }
}

/// The transfers as addresses and names.
pub open spec fn actives(v: Seq<Active>) -> Seq<(Endpoint, Seq<char>)> {
    v.map_values(|a: Active| a@)
}

/// The transfers without one of them.
pub open spec fn without(s: Seq<(Endpoint, Seq<char>)>, x: (Endpoint, Seq<char>)) -> Seq<
    (Endpoint, Seq<char>),
>
    decreases s.len(),
{
    if s.len() == 0 {
        s
    } else if s.last() == x {
        without(s.drop_last(), x)
    } else {
        without(s.drop_last(), x).push(s.last())
    }
}

/// The server between two requests.
pub struct Server {
    active: Vec<Active>,
}

impl View for Server {
    type V = Seq<(Endpoint, Seq<char>)>;

    /// The transfers that are going on.
    closed spec fn view(&self) -> Seq<(Endpoint, Seq<char>)> {
        actives(self.active@)
    }
}

/// What to do about a packet.
#[derive(Debug)]
pub enum Serve {
    Ignore,
    /// Send this back; a log line may report it.
    Refuse(Vec<u8>, Option<String>),
    /// Start a transfer; the log line that reports it.
    Start { read: bool, name: String, mode: Mode, line: String },
}

pub enum ServeView {
    Ignore,
    Refuse(Seq<u8>, Option<Seq<char>>),
    Start { read: bool, name: Seq<char>, mode: Mode, line: Seq<char> },
}

impl View for Serve {
    type V = ServeView;

    open spec fn view(&self) -> ServeView {
        match self {
            Serve::Ignore => ServeView::Ignore,
            Serve::Refuse(p, m) => ServeView::Refuse(p@, crate::discover::text_view(*m)),
            Serve::Start { read, name, mode, line } => ServeView::Start {
                read: *read,
                name: name@,
                mode: *mode,
                line: line@,
            },
        }
    }
}

/// The name of a request in the log.
pub open spec fn kind_name(read: bool) -> Seq<char> {
    if read {
        "RRQ"@
    } else {
        "WRQ"@
    }
}

/// How a log line about a request starts.
pub open spec fn request_line(ip: Seq<char>, read: bool, name: Seq<char>) -> Seq<char> {
    "["@ + ip + "] "@ + kind_name(read) + " "@ + name
}

/// What to do about a request, where `rq` is its file name, and its mode in lower case.
/// A request that comes again while its transfer is going on starts no second one.
pub open spec fn served(
    active: Seq<(Endpoint, Seq<char>)>,
    from: Endpoint,
    ip: Seq<char>,
    read: bool,
    rq: Option<(Seq<char>, Seq<char>)>,
) -> ServeView {
    match rq {
        None => ServeView::Refuse(packet::error_packet(4, "Malformed request"@), None),
        Some((name, mode)) => match packet::mode_named(mode) {
            None => ServeView::Refuse(
                packet::mode_refusal(mode),
                Some(
                    request_line(ip, read, name) + ": режим «"@ + mode + "» не поддерживается"@,
                ),
            ),
            Some(m) => if active.contains((from, name)) {
                ServeView::Ignore
            } else {
                ServeView::Start { read, name, mode: m, line: request_line(ip, read, name) }
            },
        },
    }
}

/// What to do about a packet. What is no request is let go, the packets of those who
/// look for devices among it.
pub open spec fn packet_served(
    active: Seq<(Endpoint, Seq<char>)>,
    from: Endpoint,
    ip: Seq<char>,
    p: Seq<u8>,
) -> ServeView {
    if p.len() < 2 || (packet::word_at(p, 0) != OP_RRQ && packet::word_at(p, 0) != OP_WRQ) {
        ServeView::Ignore
    } else {
        served(active, from, ip, packet::word_at(p, 0) == OP_RRQ, packet::rq_texts(p))
    }
}

/// The transfers after a packet was dealt with.
pub open spec fn now_active(
    active: Seq<(Endpoint, Seq<char>)>,
    from: Endpoint,
    step: ServeView,
) -> Seq<(Endpoint, Seq<char>)> {
    match step {
        ServeView::Start { name, .. } => active.push((from, name)),
        _ => active,
    }
}

fn request_text(ip: &str, read: bool, name: &str) -> (r: String)
    ensures
        r@ == request_line(ip@, read, name@),
{
    let mut m = "[".to_owned();
    m.append(ip);
    m.append("] ");
    m.append(
        if read {
            "RRQ"
        } else {
            "WRQ"
        },
    );
    m.append(" ");
    m.append(name);
    m
}

/// The address to listen on for what the user wrote.
pub fn listen_name(bind_addr: &str) -> (r: String)
    ensures
        r@ == text::trimmed(bind_addr@),
{
    text::trim_text(bind_addr)
}

/// Starts the server on this address with this root folder, as texts; the log line that
/// says so.
pub fn run_server(bind_addr: &str, root: &str) -> (r: (Server, String))
    ensures
        r.0@ == Seq::<(Endpoint, Seq<char>)>::empty(),
        r.1@ == "Сервер слушает "@ + text::trimmed(bind_addr@) + ", каталог: "@ + root@,
{
    let mut m = "Сервер слушает ".to_owned();
    m.append(listen_name(bind_addr).as_str());
    m.append(", каталог: ");
    m.append(root);
    let s = Server { active: Vec::new() };
    assert(s@ =~= Seq::empty());
    (s, m)
}

/// The last log line of the server.
pub const STOPPED_LINE: &'static str = "Сервер остановлен";

/// A failure of the listening socket that does not pass ends the server.
pub fn listen_failed(e: IoFailure) -> (r: Option<TftpError>)
    ensures
        match r {
            Some(f) => !wait::transient(e.kind) && f@ == error::ErrorView::Io(e.text@),
            None => wait::transient(e.kind),
        },
{
    if wait::is_transient(e.kind) {
        None
    } else {
        Some(e.into_error())
    }
}

impl Server {
    fn is_active(&self, from: Endpoint, name: &str) -> (r: bool)
        ensures
            r == self@.contains((from, name@)),
    {
        let mut i: usize = 0;
        while i < self.active.len()
            invariant
                i <= self.active.len(),
                forall|j: int| 0 <= j < i ==> (#[trigger] self@[j]) != (from, name@),
            decreases self.active.len() - i,
        {
            assert(self@[i as int] == self.active@[i as int]@);
            if self.active[i].from == from && text::same_text(self.active[i].name.as_str(), name) {
                return true;
            }
            i = i + 1;
        }
        false
    }

    /// What to do about a request: its file name, and its mode in lower case.
    pub fn request(
        &mut self,
        from: Endpoint,
        ip: &str,
        read: bool,
        rq: Option<(String, String)>,
    ) -> (r: Serve)
        ensures
            r@ == served(old(self)@, from, ip@, read, packet::rq_view(rq)),
            final(self)@ == now_active(old(self)@, from, r@),
    {
        let (name, mode) = match rq {
            None => {
                return Serve::Refuse(packet::build_error(4, "Malformed request"), None);
            },
            Some(p) => p,
        };
        let m = match packet::accept_mode(mode.as_str()) {
            Err(reply) => {
                let mut line = request_text(ip, read, name.as_str());
                line.append(": режим «");
                line.append(mode.as_str());
                line.append("» не поддерживается");
                return Serve::Refuse(reply, Some(line));
            },
            Ok(m) => m,
        };
        if self.is_active(from, name.as_str()) {
            return Serve::Ignore;
        }
        let line = request_text(ip, read, name.as_str());
        self.active.push(Active { from, name: name.clone() });
        assert(self@ =~= old(self)@.push((from, name@)));
        Serve::Start { read, name, mode: m, line }
    }

    /// What to do about a packet from `from`, whose address is `ip` as text.
    pub fn heard(&mut self, from: Endpoint, ip: &str, p: &[u8]) -> (r: Serve)
        ensures
            r@ == packet_served(old(self)@, from, ip@, p@),
            final(self)@ == now_active(old(self)@, from, r@),
    {
        if p.len() < 2 {
            return Serve::Ignore;
        }
        let op: u16 = packet::opcode_of(p);
        if op != OP_RRQ && op != OP_WRQ {
            return Serve::Ignore;
        }
        self.request(from, ip, op == OP_RRQ, packet::parse_rq(p))
    }

    /// A transfer has ended: the log line.
    pub fn ended(
        &mut self,
        from: Endpoint,
        ip: &str,
        read: bool,
        name: &str,
        res: Result<u64, TftpError>,
    ) -> (r: String)
        ensures
            final(self)@ == without(old(self)@, (from, name@)),
            r@ == request_line(ip@, read, name@) + ": "@ + (match res {
                Ok(n) => "готово, "@ + text::dec(n as nat) + " байт"@,
                Err(e) => error::error_text(e@),
            }),
    {
        let mut left: Vec<Active> = Vec::new();
        let mut i: usize = 0;
        let ghost all = self@;
        assert(actives(left@) =~= Seq::empty());
        while i < self.active.len()
            invariant
                i <= self.active.len(),
                all == actives(self.active@),
                actives(left@) == without(all.take(i as int), (from, name@)),
            decreases self.active.len() - i,
        {
            assert(all.take(i + 1).drop_last() =~= all.take(i as int));
            assert(all[i as int] == self.active@[i as int]@);
            let a = &self.active[i];
            if !(a.from == from && text::same_text(a.name.as_str(), name)) {
                let ghost before = actives(left@);
                left.push(Active { from: a.from, name: a.name.clone() });
                assert(actives(left@) =~= before.push(a@));
            }
            i = i + 1;
        }
        assert(all.take(i as int) =~= all);
        self.active = left;
        let mut m = request_text(ip, read, name);
        m.append(": ");
        match res {
            Ok(n) => {
                let mut done = "готово, ".to_owned();
                text::push_dec(&mut done, n);
                done.append(" байт");
                m.append(done.as_str());
            },
            Err(e) => m.append(e.message().as_str()),
        }
        m
    }
}

/// A log line of a transfer, with the address of the client before it.
pub fn client_line(client: &str, m: &str) -> (r: String)
    ensures
        r@ == "["@ + client@ + "] "@ + m@,
{
    let mut s = "[".to_owned();
    s.append(client);
    s.append("] ");
    s.append(m);
    s
}

// ---------------------------------------------------------------- reading
/// What a server found under a name that is to be read.
#[derive(Debug)]
pub enum Source {
    /// There is no such file, or it may not be read from here.
    Missing,
    /// The file could not be opened.
    Closed,
    /// The file is open; its length, where it is known.
    Open(Option<u64>),
}

/// Whether the file is sent: with this number of bytes on the wire, where it is known; or
/// what to answer instead, and why.
pub fn serve_rrq(source: Source, mode: Mode) -> (r: Result<Option<u64>, (Vec<u8>, TftpError)>)
    ensures
        match source {
            Source::Missing => r matches Err(f) && f.0@ == packet::error_packet(
                1,
                "File not found"@,
            ) && f.1@ == error::ErrorView::Protocol("файл не найден"@),
            Source::Closed => r matches Err(f) && f.0@ == packet::error_packet(
                2,
                "Access violation"@,
            ) && f.1@ == error::ErrorView::Protocol("нет доступа к файлу"@),
            Source::Open(len) => r == Ok::<Option<u64>, (Vec<u8>, TftpError)>(
                if mode == Mode::Octet {
                    len
                } else {
                    None
                },
            ),
        },
{
    match source {
        Source::Missing => Err(
            (packet::build_error(1, "File not found"), error::protocol("файл не найден")),
        ),
        Source::Closed => Err(
            (packet::build_error(2, "Access violation"), error::protocol("нет доступа к файлу")),
        ),
        Source::Open(len) => match mode {
            Mode::Octet => Ok(len),
            Mode::Netascii => Ok(None),
        },
    }
}

// ---------------------------------------------------------------- writing
/// What a server found at the place of a file that is to be written.
#[derive(Clone, Copy, Debug, PartialEq, Eq, Structural)]
pub enum Target {
    /// The name is not acceptable.
    Forbidden,
    /// The file could not be created.
    Closed,
    Open,
}

/// Whether the file is received: the receiving side, whose first packet acknowledges the
/// request; or what to answer instead, and why.
pub fn serve_wrq(target: Target, client: Endpoint) -> (r: Result<Receiver, (Vec<u8>, TftpError)>)
    ensures
        match target {
            Target::Forbidden => r matches Err(f) && f.0@ == packet::error_packet(
                2,
                "Access violation"@,
            ) && f.1@ == error::ErrorView::Protocol("недопустимое имя файла"@),
            Target::Closed => r matches Err(f) && f.0@ == packet::error_packet(
                2,
                "Access violation"@,
            ) && f.1@ == error::ErrorView::Protocol("не удалось создать файл"@),
            Target::Open => r matches Ok(s) && s@ == transfer::recv_start(
                client,
                packet::ack_packet(0),
                Some(client),
            ),
        },
{
    match target {
        Target::Forbidden => Err(
            (
                packet::build_error(2, "Access violation"),
                error::protocol("недопустимое имя файла"),
            ),
        ),
        Target::Closed => Err(
            (
                packet::build_error(2, "Access violation"),
                error::protocol("не удалось создать файл"),
            ),
        ),
        Target::Open => Ok(
            transfer::recv_blocks_deferred(client, packet::ack_vec(0), Some(client)),
        ),
    }
}

/// The end of receiving a file, when it was given its name, or could not be: the last
/// packet to the client, and the outcome. The last acknowledgement goes out only when the
/// file is in its place; otherwise the file is to be removed and the client learns it.
pub fn wrq_stored(rx: Received, renamed: Result<(), IoFailure>) -> (r: (
    Vec<u8>,
    Result<u64, TftpError>,
))
    ensures
        match renamed {
            Ok(_) => r.0@ == packet::ack_packet(rx.last_block) && r.1 == Ok::<u64, TftpError>(
                rx.total,
            ),
            Err(e) => r.0@ == packet::error_packet(0, "Cannot store file"@) && r.1 is Err
                && r.1->Err_0@ == error::ErrorView::Io(e.text@),
        },
{
    match renamed {
        Ok(_) => (transfer::ack_final(&rx), Ok(rx.total)),
        Err(e) => (transfer::fail_final(0, "Cannot store file"), Err(e.into_error())),
    }
}

// ---------------------------------------------------------------- laws
proof fn lemma_without(s: Seq<(Endpoint, Seq<char>)>, x: (Endpoint, Seq<char>))
    ensures
        !without(s, x).contains(x),
        forall|y: (Endpoint, Seq<char>)|
            y != x ==> (#[trigger] without(s, x).contains(y) <==> s.contains(y)),
    decreases s.len(),
{
    if s.len() > 0 {
        let t = s.drop_last();
        lemma_without(t, x);
        let w = without(s, x);
        assert forall|y: (Endpoint, Seq<char>)| s.contains(y) <==> (t.contains(y) || y
            == s.last()) by {
            if s.contains(y) {
                let i = choose|i: int| 0 <= i < s.len() && s[i] == y;
                if i < t.len() {
                    assert(t[i] == y);
                }
            }
            if t.contains(y) {
                let i = choose|i: int| 0 <= i < t.len() && t[i] == y;
                assert(s[i] == y);
            }
            if y == s.last() {
                assert(s[s.len() - 1] == y);
            }
        }
        if s.last() != x {
            let v = without(t, x);
            assert forall|y: (Endpoint, Seq<char>)| w.contains(y) <==> (v.contains(y) || y
                == s.last()) by {
                if w.contains(y) {
                    let i = choose|i: int| 0 <= i < w.len() && w[i] == y;
                    if i < v.len() {
                        assert(v[i] == y);
                    }
                }
                if v.contains(y) {
                    let i = choose|i: int| 0 <= i < v.len() && v[i] == y;
                    assert(w[i] == y);
                }
                if y == s.last() {
                    assert(w[w.len() - 1] == y);
                }
            }
        }
    }
}

/// A request starts a transfer once: while the transfer is going on the same request is
/// let go; when it has ended, the request may start another.
pub proof fn law_one_transfer_per_request(
    active: Seq<(Endpoint, Seq<char>)>,
    from: Endpoint,
    ip: Seq<char>,
    read: bool,
    name: Seq<char>,
    mode: Seq<char>,
)
    requires
        packet::mode_named(mode) is Some,
    ensures
        ({
            let rq = Some((name, mode));
            let first = served(active, from, ip, read, rq);
            let then = now_active(active, from, first);
            &&& !active.contains((from, name)) ==> first is Start
            &&& served(then, from, ip, read, rq) == ServeView::Ignore
            &&& served(without(then, (from, name)), from, ip, read, rq) is Start
        }),
{
    let rq = Some((name, mode));
    let first = served(active, from, ip, read, rq);
    let then = now_active(active, from, first);
    if !active.contains((from, name)) {
        assert(then[then.len() - 1] == (from, name));
    }
    lemma_without(then, (from, name));
}

/// The end of one transfer does not touch the others.
pub proof fn law_transfers_are_independent(
    active: Seq<(Endpoint, Seq<char>)>,
    ended: (Endpoint, Seq<char>),
    other: (Endpoint, Seq<char>),
)
    requires
        other != ended,
    ensures
        without(active, ended).contains(other) <==> active.contains(other),
{
    lemma_without(active, ended);
}

/// A request that is understood starts a transfer of just what it asks for: in its
/// direction, of its file, and in its mode; unless that transfer is going on already.
pub proof fn law_request_starts_what_it_asks_for(
    active: Seq<(Endpoint, Seq<char>)>,
    from: Endpoint,
    ip: Seq<char>,
    read: bool,
    name: Seq<char>,
    mode: Seq<char>,
)
    requires
        packet::mode_named(mode) is Some,
    ensures
        active.contains((from, name)) ==> served(active, from, ip, read, Some((name, mode)))
            == ServeView::Ignore,
        !active.contains((from, name)) ==> (served(active, from, ip, read, Some((name, mode)))
            matches ServeView::Start { read: r, name: n, mode: m, line } && r == read && n == name
            && Some(m) == packet::mode_named(mode) && line == "["@ + ip + (if read {
            "] RRQ "@
        } else {
            "] WRQ "@
        }) + name),
{
    reveal_strlit("] RRQ ");
    reveal_strlit("] WRQ ");
    reveal_strlit("] ");
    reveal_strlit(" ");
    reveal_strlit("RRQ");
    reveal_strlit("WRQ");
    assert(request_line(ip, read, name) =~= "["@ + ip + (if read {
        "] RRQ "@
    } else {
        "] WRQ "@
    }) + name);
}

/// A request that is not understood starts nothing and is answered with error 4.
pub proof fn law_odd_request_is_refused(
    active: Seq<(Endpoint, Seq<char>)>,
    from: Endpoint,
    ip: Seq<char>,
    read: bool,
    name: Seq<char>,
    mode: Seq<char>,
)
    ensures
        served(active, from, ip, read, None) == ServeView::Refuse(
            packet::error_packet(4, "Malformed request"@),
            None,
        ),
        packet::mode_named(mode) is None ==> (served(active, from, ip, read, Some((name, mode)))
            matches ServeView::Refuse(p, Some(line)) && p.len() > 4 && p[0] == 0 && p[1] == 5
            && p[2] == 0 && p[3] == 4),
{
    packet::law_mode_refusal(mode);
}

/// Only requests to read and to write are answered; the rest of the packet is what they ask
/// for.
pub proof fn law_server_answers_requests_only(
    active: Seq<(Endpoint, Seq<char>)>,
    from: Endpoint,
    ip: Seq<char>,
    p: Seq<u8>,
)
    ensures
        p.len() < 2 || p[0] != 0 || (p[1] != 1 && p[1] != 2) ==> packet_served(active, from, ip, p)
            == ServeView::Ignore,
        p.len() >= 2 && p[0] == 0 && p[1] == 1 ==> packet_served(active, from, ip, p) == served(
            active,
            from,
            ip,
            true,
            packet::rq_texts(p),
        ),
        p.len() >= 2 && p[0] == 0 && p[1] == 2 ==> packet_served(active, from, ip, p) == served(
            active,
            from,
            ip,
            false,
            packet::rq_texts(p),
        ),
{
    if p.len() >= 2 {
        assert(p[0] * 256 + p[1] <= 0xffff);
    }
}

/// A transfer that starts is known from then on, and so are all that were going on; nothing
/// else changes them.
pub proof fn law_transfers_are_known(
    active: Seq<(Endpoint, Seq<char>)>,
    from: Endpoint,
    read: bool,
    name: Seq<char>,
    mode: Mode,
    line: Seq<char>,
    reply: Seq<u8>,
    m: Option<Seq<char>>,
    x: (Endpoint, Seq<char>),
)
    ensures
        now_active(active, from, ServeView::Start { read, name, mode, line }).contains(x) <==> (
        active.contains(x) || x == (from, name)),
        now_active(active, from, ServeView::Ignore) == active,
        now_active(active, from, ServeView::Refuse(reply, m)) == active,
{
    let then = active.push((from, name));
    if active.contains(x) {
        let i = choose|i: int| 0 <= i < active.len() && active[i] == x;
        assert(then[i] == x);
    }
    assert(then.last() == (from, name));
}

} // verus!
