//! The receiving program: it listens, answers those who look for it, takes in files, one
//! at a time, checks them against the list of the sender where there is one, and removes
//! everything again when its user stops it.
use crate::discover;
use crate::error;
use crate::error::TftpError;
use crate::packet;
use crate::packet::{Mode, OP_RRQ, OP_WRQ};
use crate::peer::{Endpoint, Ip};
use crate::session;
use crate::session::{Session, MANIFEST_NAME, RESULT_NAME};
use crate::text;
use crate::transfer;
use crate::transfer::Received;
use crate::wait;
use crate::wait::{IoFailure, IoKind};
use vstd::prelude::*;
use vstd::slice::slice_to_vec;
use vstd::utf8::*;

verus! {

/// A request that comes again so soon after it was dealt with is a duplicate: the answer
/// to it got lost or is still on its way.
pub const RECENT: u64 = 10_000_000_000;

/// A file that was kept: the number of its path, and the path as text.
#[derive(Debug)]
pub struct Kept {
    pub id: u64,
    pub shown: String,
}

impl View for Kept {
    type V = (u64, Seq<char>);

    open spec fn view(&self) -> (u64, Seq<char>) {
        (self.id, self.shown@)
    }
}

/// Numbers and paths of the files that were kept.
pub open spec fn kept(v: Seq<Kept>) -> Seq<(u64, Seq<char>)> {
    v.map_values(|k: Kept| k@)
}

/// A request that has been dealt with: who sent it, the name of the file, and when.
#[derive(Debug)]
pub struct Served {
    pub from: Endpoint,
    pub name: String,
    pub at: u64,
}

impl View for Served {
    type V = (Endpoint, Seq<char>, u64);

    open spec fn view(&self) -> (Endpoint, Seq<char>, u64) {
        (self.from, self.name@, self.at)
    }
}

/// The receiving program between two requests.
pub struct ReceiveLoop {
    hello: Vec<u8>,
    last_done: Option<Served>,
    session: Option<Session>,
    session_ip: Option<Ip>,
    last_result: Option<(Endpoint, u64)>,
    received: Vec<Kept>,
    created: Vec<u64>,
}

#[verifier::ext_equal]
pub struct LoopView {
    /// The answer to those who look for devices.
    pub hello: Seq<u8>,
    /// The last file that was taken in.
    pub last_done: Option<(Endpoint, Seq<char>, u64)>,
    /// The check that is going on, and whose files it concerns.
    pub session: Option<session::SessionView>,
    pub session_ip: Option<Ip>,
    /// Who asked last for the outcome, and when.
    pub last_result: Option<(Endpoint, u64)>,
    /// What is to be removed if the user stops: files and folders, in the order in which
    /// they came to be.
    pub received: Seq<(u64, Seq<char>)>,
    pub created: Seq<u64>,
}

/// The view of an optional request.
pub open spec fn served_view(s: Option<Served>) -> Option<(Endpoint, Seq<char>, u64)> {
    match s {
        Some(x) => Some(x@),
        None => None,
    }
}

impl View for ReceiveLoop {
    type V = LoopView;

    closed spec fn view(&self) -> LoopView {
        LoopView {
            hello: self.hello@,
            last_done: served_view(self.last_done),
            session: session::session_view(self.session),
            session_ip: self.session_ip,
            last_result: self.last_result,
            received: kept(self.received@),
            created: self.created@,
        }
    }
}

/// Whether the check that is going on makes sense.
pub open spec fn sound(l: LoopView) -> bool {
    l.session matches Some(s) ==> s.next <= s.files.len()
}

/// Whether something that happened at `at` is so recent that its repetition is a duplicate.
pub open spec fn is_recent(now: u64, at: u64) -> bool {
    now - at < RECENT
}

fn recent(now: u64, at: u64) -> (r: bool)
    ensures
        r == is_recent(now, at),
{
    now < at || now - at < RECENT
}

// ---------------------------------------------------------------- requests
/// What to do about a packet.
#[derive(Debug)]
pub enum Request {
    Ignore,
    /// Send this back; a log line may report it.
    Reply(Vec<u8>, Option<String>),
    /// Send this text to who asked for the outcome, then go on with `result_sent`.
    Result(Vec<u8>),
    /// Receive a list, then go on with `manifest_received`.
    Manifest,
    /// Receive a file of this name, if the name is acceptable.
    Incoming(String, Mode),
}

pub enum RequestView {
    Ignore,
    Reply(Seq<u8>, Option<Seq<char>>),
    Result(Seq<u8>),
    Manifest,
    Incoming(Seq<char>, Mode),
}

impl View for Request {
    type V = RequestView;

    open spec fn view(&self) -> RequestView {
        match self {
            Request::Ignore => RequestView::Ignore,
            Request::Reply(p, m) => RequestView::Reply(p@, discover::text_view(*m)),
            Request::Result(b) => RequestView::Result(b@),
            Request::Manifest => RequestView::Manifest,
            Request::Incoming(n, m) => RequestView::Incoming(n@, *m),
        }
    }
}

/// The check that concerns the files of `ip`, if one is going on.
pub open spec fn own_session(l: LoopView, ip: Ip) -> Option<session::SessionView> {
    if l.session_ip == Some(ip) {
        l.session
    } else {
        None
    }
}

/// The answer to the question how the check ended, for `ip`.
pub open spec fn result_text(l: LoopView, ip: Ip) -> Seq<char> {
    match own_session(l, ip) {
        None => "FAIL\nсписок файлов и контрольная сумма не были получены\n"@,
        Some(s) => session::report(s),
    }
}

/// The line that reports a refused request to read.
pub open spec fn read_refused_line(name: Option<Seq<char>>, ip: Seq<char>) -> Seq<char> {
    "← RRQ "@ + (match name {
        Some(n) => n,
        None => "?"@,
    }) + " от "@ + ip + ": чтение запрещено (Read is not allowed)"@
}

/// What to do about a request to read. Only the outcome of the check can be read.
pub open spec fn read_asked(
    l: LoopView,
    now: u64,
    from: Endpoint,
    ip: Seq<char>,
    name: Option<Seq<char>>,
) -> RequestView {
    if name == Some(RESULT_NAME@) {
        if l.last_result matches Some((who, at)) && who == from && is_recent(now, at) {
            RequestView::Ignore
        } else {
            RequestView::Result(encode_utf8(result_text(l, from.ip)))
        }
    } else {
        RequestView::Reply(
            packet::error_packet(2, "Read is not allowed"@),
            Some(read_refused_line(name, ip)),
        )
    }
}

/// What to do about a request to write: its file name, and its mode in lower case.
pub open spec fn write_asked(
    l: LoopView,
    now: u64,
    from: Endpoint,
    ip: Seq<char>,
    rq: Option<(Seq<char>, Seq<char>)>,
) -> RequestView {
    match rq {
        None => RequestView::Reply(packet::error_packet(4, "Malformed request"@), None),
        Some((name, mode)) => match packet::mode_named(mode) {
            None => RequestView::Reply(
                packet::mode_refusal(mode),
                Some(
                    "← "@ + name + " от "@ + ip + ": режим «"@ + mode + "» не поддерживается"@,
                ),
            ),
            Some(m) => if l.last_done matches Some((who, what, at)) && who == from && what == name
                && is_recent(now, at) {
                RequestView::Ignore
            } else if name == MANIFEST_NAME@ {
                if m != Mode::Octet {
                    RequestView::Reply(
                        packet::error_packet(4, "Manifest must be sent in octet mode"@),
                        None,
                    )
                } else {
                    RequestView::Manifest
                }
            } else {
                RequestView::Incoming(name, m)
            },
        },
    }
}

/// What to do about a packet.
pub open spec fn asked(l: LoopView, now: u64, from: Endpoint, ip: Seq<char>, p: Seq<u8>) -> RequestView {
    if discover::asks(p) {
        RequestView::Reply(l.hello, None)
    } else if p.len() < 2 {
        RequestView::Ignore
    } else if packet::word_at(p, 0) == OP_WRQ {
        write_asked(l, now, from, ip, packet::rq_texts(p))
    } else if packet::word_at(p, 0) == OP_RRQ {
        read_asked(
            l,
            now,
            from,
            ip,
            match packet::rq_texts(p) {
                Some(t) => Some(t.0),
                None => None,
            },
        )
    } else {
        RequestView::Ignore
    }
}

/// Starts the receiving program on a computer of this name, with the folder for incoming
/// files as text; and the log line that says so.
pub fn receive_loop(host_name: &str, folder: &str) -> (r: (ReceiveLoop, String))
    ensures
        r.0@ == (LoopView {
            hello: discover::here(host_name@),
            last_done: None,
            session: None,
            session_ip: None,
            last_result: None,
            received: Seq::empty(),
            created: Seq::empty(),
        }),
        r.1@ == "Приём запущен, папка: "@ + folder@,
        sound(r.0@),
{
    let l = ReceiveLoop {
        hello: discover::hello(host_name),
        last_done: None,
        session: None,
        session_ip: None,
        last_result: None,
        received: Vec::new(),
        created: Vec::new(),
    };
    assert(l@.received =~= Seq::empty());
    let mut m = "Приём запущен, папка: ".to_owned();
    m.append(folder);
    (l, m)
}

impl ReceiveLoop {
    /// The answer to the question how the check ended, for `ip`.
    fn result_for(&self, ip: Ip) -> (r: String)
        requires
            sound(self@),
        ensures
            r@ == result_text(self@, ip),
    {
        if self.session_ip == Some(ip) {
            match &self.session {
                Some(s) => {
                    return s.result_body();
                },
                None => {},
            }
        }
        "FAIL\nсписок файлов и контрольная сумма не были получены\n".to_owned()
    }

    /// What to do about a request to read a file of this name; nothing if it has none.
    pub fn read_request(&self, now: u64, from: Endpoint, ip: &str, name: Option<String>) -> (r:
        Request)
        requires
            sound(self@),
        ensures
            r@ == read_asked(self@, now, from, ip@, discover::text_view(name)),
    {
        let wanted = match &name {
            Some(n) => text::same_text(n.as_str(), RESULT_NAME),
            None => false,
        };
        if wanted {
            match self.last_result {
                Some((a, t)) => if a == from && recent(now, t) {
                    return Request::Ignore;
                },
                None => {},
            }
            let body = self.result_for(from.ip);
            return Request::Result(slice_to_vec(body.as_str().as_bytes()));
        }
        let mut m = "← RRQ ".to_owned();
        match &name {
            Some(n) => m.append(n.as_str()),
            None => m.append("?"),
        }
        m.append(" от ");
        m.append(ip);
        m.append(": чтение запрещено (Read is not allowed)");
        Request::Reply(packet::build_error(2, "Read is not allowed"), Some(m))
    }

    /// What to do about a request to write: its file name, and its mode in lower case.
    pub fn write_request(
        &self,
        now: u64,
        from: Endpoint,
        ip: &str,
        rq: Option<(String, String)>,
    ) -> (r: Request)
        ensures
            r@ == write_asked(self@, now, from, ip@, packet::rq_view(rq)),
    {
        let (name, mode) = match rq {
            None => {
                return Request::Reply(packet::build_error(4, "Malformed request"), None);
            },
            Some(p) => p,
        };
        let m = match packet::accept_mode(mode.as_str()) {
            Err(reply) => {
                let mut line = "← ".to_owned();
                line.append(name.as_str());
                line.append(" от ");
                line.append(ip);
                line.append(": режим «");
                line.append(mode.as_str());
                line.append("» не поддерживается");
                return Request::Reply(reply, Some(line));
            },
            Ok(m) => m,
        };
        match &self.last_done {
            Some(d) => if d.from == from && text::same_text(d.name.as_str(), name.as_str())
                && recent(now, d.at) {
                return Request::Ignore;
            },
            None => {},
        }
        if text::same_text(name.as_str(), MANIFEST_NAME) {
            if m != Mode::Octet {
                return Request::Reply(
                    packet::build_error(4, "Manifest must be sent in octet mode"),
                    None,
                );
            }
            return Request::Manifest;
        }
        Request::Incoming(name, m)
    }

    /// What to do about a packet from `from`, whose address is `ip` as text.
    pub fn heard(&self, now: u64, from: Endpoint, ip: &str, p: &[u8]) -> (r: Request)
        requires
            sound(self@),
        ensures
            r@ == asked(self@, now, from, ip@, p@),
    {
        if discover::is_question(p) {
            return Request::Reply(self.hello.clone(), None);
        }
        if p.len() < 2 {
            return Request::Ignore;
        }
        let op: u16 = packet::opcode_of(p);
        if op == OP_WRQ {
            self.write_request(now, from, ip, packet::parse_rq(p))
        } else if op == OP_RRQ {
            let name = match packet::parse_rq(p) {
                Some((n, _)) => Some(n),
                None => None,
            };
            self.read_request(now, from, ip, name)
        } else {
            Request::Ignore
        }
    }
}

// ---------------------------------------------------------------- log lines
/// Two texts one after the other.
fn line2(a: &str, b: &str) -> (r: String)
    ensures
        r@ == a@ + b@,
{
    let mut m = a.to_owned();
    m.append(b);
    m
}

/// The line that reports that no socket could be opened for a transfer.
pub fn socket_line(e: &IoFailure) -> (r: String)
    ensures
        r@ == "Ошибка: не удалось открыть сокет передачи: "@ + e.text@,
{
    line2("Ошибка: не удалось открыть сокет передачи: ", e.text.as_str())
}

/// Once the program listens, no failure of its socket ends it: it goes on listening. A log
/// line reports a failure that does not pass by itself.
pub fn listen_failed(e: &IoFailure) -> (r: Option<String>)
    ensures
        discover::text_view(r) == if wait::transient(e.kind) {
            None
        } else {
            Some("Ошибка приёма: "@ + e.text@)
        },
{
    if wait::is_transient(e.kind) {
        None
    } else {
        Some(line2("Ошибка приёма: ", e.text.as_str()))
    }
}

// ---------------------------------------------------------------- the outcome
/// How sending the outcome ended.
pub enum Delivery {
    NoSocket(IoFailure),
    Sent,
    /// The user has stopped the program.
    Stopped,
    Failed(TftpError),
}

/// The line that reports how sending the outcome ended, if any.
pub open spec fn delivery_line(d: Delivery) -> Option<Seq<char>> {
    match d {
        Delivery::NoSocket(e) => Some(
            "Ошибка: не удалось открыть сокет передачи: "@ + e.text@,
        ),
        Delivery::Failed(e) => Some(
            "Ошибка: не удалось отправить результат проверки: "@ + error::error_text(e@),
        ),
        _ => None,
    }
}

/// The program after the outcome was sent to `from`: the check that concerns it is over.
pub open spec fn answered(l: LoopView, now: u64, from: Endpoint) -> LoopView {
    if l.session_ip == Some(from.ip) {
        LoopView { last_result: Some((from, now)), session: None, session_ip: None, ..l }
    } else {
        LoopView { last_result: Some((from, now)), ..l }
    }
}

/// Whether the program ends when the outcome was sent to `from`: all that was announced
/// has come, the check has succeeded, and who sent it knows.
pub open spec fn complete(l: LoopView, from: Endpoint, d: Delivery) -> bool {
    &&& own_session(l, from.ip) matches Some(s)
    &&& session::passed(s.verdict)
    &&& d is Sent
}

/// The log line of a program that ends by itself.
pub const COMPLETE_LINE: &'static str = "✓ Всё принято и проверено, приём завершён";

impl ReceiveLoop {
    /// The outcome was sent to `from`, or not. A log line, if any, and whether the program
    /// ends (with `COMPLETE_LINE`).
    pub fn result_sent(&mut self, now: u64, from: Endpoint, d: Delivery) -> (r: (
        Option<String>,
        bool,
    ))
        requires
            sound(old(self)@),
        ensures
            final(self)@ == answered(old(self)@, now, from),
            sound(final(self)@),
            discover::text_view(r.0) == delivery_line(d),
            r.1 == complete(old(self)@, from, d),
    {
        let own = self.session_ip == Some(from.ip);
        let verdict_ok = match &self.session {
            Some(s) => own && s.passed(),
            None => false,
        };
        let (line, delivered) = match d {
            Delivery::NoSocket(e) => (Some(socket_line(&e)), false),
            Delivery::Sent => (None, true),
            Delivery::Stopped => (None, false),
            Delivery::Failed(e) => (
                Some(
                    line2(
                        "Ошибка: не удалось отправить результат проверки: ",
                        e.message().as_str(),
                    ),
                ),
                false,
            ),
        };
        self.last_result = Some((from, now));
        if own {
            self.session = None;
            self.session_ip = None;
        }
        (line, verdict_ok && delivered)
    }
}

// ---------------------------------------------------------------- the list
/// The program after a list came from `from`: `parsed` is the check it asks for, unless
/// it makes no sense.
pub open spec fn list_taken(
    l: LoopView,
    now: u64,
    from: Endpoint,
    parsed: Option<session::SessionView>,
) -> LoopView {
    let done = LoopView { last_done: Some((from, MANIFEST_NAME@, now)), ..l };
    match parsed {
        Some(s) => LoopView { session: Some(s), session_ip: Some(from.ip), ..done },
        None => done,
    }
}

/// The line that reports a list.
pub open spec fn list_line(parsed: Option<session::SessionView>) -> Seq<char> {
    match parsed {
        Some(s) => "← получена общая контрольная сумма ("@ + text::head(s.expected, 8)
            + "…), файлов: "@ + text::dec(s.files.len()),
        None => "Ошибка: список от отправителя повреждён, проверка невозможна"@,
    }
}

impl ReceiveLoop {
    /// A list came from `from` and was read. The log line.
    pub fn manifest_parsed(&mut self, now: u64, from: Endpoint, parsed: Option<Session>) -> (r:
        String)
        requires
            sound(old(self)@),
            parsed matches Some(s) ==> s.wf(),
        ensures
            final(self)@ == list_taken(old(self)@, now, from, session::session_view(parsed)),
            sound(final(self)@),
            r@ == list_line(session::session_view(parsed)),
    {
        let line = match &parsed {
            Some(s) => {
                let mut m = "← получена общая контрольная сумма (".to_owned();
                m.append(session::short(s.expected()).as_str());
                m.append("…), файлов: ");
                text::push_dec(&mut m, s.file_count() as u64);
                m
            },
            None => "Ошибка: список от отправителя повреждён, проверка невозможна".to_owned(),
        };
        self.last_done = Some(Served { from, name: MANIFEST_NAME.to_owned(), at: now });
        if parsed.is_some() {
            self.session = parsed;
            self.session_ip = Some(from.ip);
        }
        line
    }

    /// The transfer of a list from `from` has ended. The log line, if any.
    pub fn manifest_received(
        &mut self,
        now: u64,
        from: Endpoint,
        res: Result<Vec<u8>, TftpError>,
    ) -> (r: Option<String>)
        requires
            sound(old(self)@),
        ensures
            sound(final(self)@),
            match res {
                Ok(data) => {
                    &&& final(self)@ == list_taken(
                        old(self)@,
                        now,
                        from,
                        session::parsed(data@),
                    )
                    &&& discover::text_view(r) == Some(list_line(session::parsed(data@)))
                },
                Err(TftpError::Cancelled) => final(self)@ == old(self)@ && r is None,
                Err(e) => final(self)@ == old(self)@ && discover::text_view(r) == Some(
                    "Ошибка приёма контрольной суммы: "@ + error::error_text(e@),
                ),
            },
            forall|hash: Seq<char>, files: Seq<(Seq<char>, u64)>|
                session::is_manifest(hash, files) && res is Ok && res->Ok_0@ == encode_utf8(
                    #[trigger] session::manifest_text(hash, files),
                ) ==> final(self)@ == list_taken(
                    old(self)@,
                    now,
                    from,
                    Some(session::fresh(hash, files)),
                ),
    {
        match res {
            Ok(data) => {
                let parsed = session::parse_manifest(&data);
                Some(self.manifest_parsed(now, from, parsed))
            },
            Err(TftpError::Cancelled) => None,
            Err(e) => Some(line2("Ошибка приёма контрольной суммы: ", e.message().as_str())),
        }
    }
}

// ---------------------------------------------------------------- files
/// What to answer to a name that is not acceptable, and the line that reports it.
pub fn incoming_refused(filename: &str, ip: &str) -> (r: (Vec<u8>, String))
    ensures
        r.0@ == packet::error_packet(2, "Access violation"@),
        r.1@ == "← "@ + filename@ + " от "@ + ip@ + ": недопустимое имя, отклонено"@,
{
    let mut m = "← ".to_owned();
    m.append(filename);
    m.append(" от ");
    m.append(ip);
    m.append(": недопустимое имя, отклонено");
    (packet::build_error(2, "Access violation"), m)
}

/// The line that announces a file.
pub fn incoming_line(filename: &str, ip: &str, mode: Mode) -> (r: String)
    ensures
        r@ == "← "@ + filename@ + " от "@ + ip@ + (if mode == Mode::Netascii {
            " (netascii)"@
        } else {
            ""@
        }),
{
    let mut m = "← ".to_owned();
    m.append(filename);
    m.append(" от ");
    m.append(ip);
    m.append(
        if mode == Mode::Netascii {
            " (netascii)"
        } else {
            ""
        },
    );
    m
}

/// What to answer when the file cannot be created, and the line that reports it.
pub fn create_failed(shown: &str, e: &IoFailure) -> (r: (Vec<u8>, String))
    ensures
        r.0@ == packet::error_packet(2, "Access violation"@),
        r.1@ == "Ошибка: не удалось создать "@ + shown@ + ": "@ + e.text@,
{
    let mut m = "Ошибка: не удалось создать ".to_owned();
    m.append(shown);
    m.append(": ");
    m.append(e.text.as_str());
    (packet::build_error(2, "Access violation"), m)
}

/// The program while a file comes in.
pub struct IncomingFile {
    state: ReceiveLoop,
    from: Endpoint,
    filename: String,
    in_session: bool,
    fed: bool,
    problem: Option<String>,
    base: u64,
    total: Option<u64>,
    size: u64,
}

#[verifier::ext_equal]
pub struct IncomingView {
    pub state: LoopView,
    pub from: Endpoint,
    pub filename: Seq<char>,
    /// Whether the file concerns the check that is going on.
    pub in_session: bool,
    /// Whether it is the next of the list, so that its contents are hashed.
    pub fed: bool,
    /// What is wrong with it, if it should be the next of the list but is not.
    pub problem: Option<Seq<char>>,
    /// How much of the list came before, and how much it is in all, where that is known.
    pub base: u64,
    pub total: Option<u64>,
    /// How much has been stored.
    pub size: u64,
}

impl View for IncomingFile {
    type V = IncomingView;

    closed spec fn view(&self) -> IncomingView {
        IncomingView {
            state: self.state@,
            from: self.from,
            filename: self.filename@,
            in_session: self.in_session,
            fed: self.fed,
            problem: discover::text_view(self.problem),
            base: self.base,
            total: self.total,
            size: self.size,
        }
    }
}

/// Whether a file that comes in fits the check that is going on.
pub open spec fn fits(f: IncomingView) -> bool {
    &&& sound(f.state)
    &&& f.in_session ==> f.state.session is Some && f.state.session->0.verdict is None
    &&& f.fed ==> f.in_session && f.state.session->0.next < f.state.session->0.files.len()
}

/// Whether a file concerns the check that is going on: it comes from the sender of the
/// list, in octet mode, and the outcome is still open.
pub open spec fn concerns(l: LoopView, from: Endpoint, mode: Mode) -> bool {
    &&& mode == Mode::Octet
    &&& own_session(l, from.ip) matches Some(s)
    &&& s.verdict is None
}

/// The program when a file starts to come in.
pub open spec fn file_started(l: LoopView, from: Endpoint, filename: Seq<char>, mode: Mode) -> IncomingView {
    let plain = IncomingView {
        state: l,
        from,
        filename,
        in_session: false,
        fed: false,
        problem: None,
        base: 0,
        total: None,
        size: 0,
    };
    if !concerns(l, from, mode) {
        plain
    } else {
        let s = l.session->0;
        let (t, r) = session::started(s, filename);
        let state = LoopView { session: Some(t), ..l };
        match r {
            Ok(_) => IncomingView {
                state,
                in_session: true,
                fed: true,
                base: session::size_sum(s.files, s.next as int),
                total: Some(session::size_sum(s.files, s.files.len() as int)),
                ..plain
            },
            Err(m) => IncomingView { state, in_session: true, problem: Some(m), ..plain },
        }
    }
}

/// The line that says how much is to be expected.
pub open spec fn total_line(total: Option<u64>) -> Seq<char> {
    match total {
        Some(t) => "  общий размер известен из списка отправителя: "@ + text::dec(t as nat)
            + " байт"@,
        None =>
            "  общий размер неизвестен: список файлов от отправителя не получен (обычный TFTP-клиент, либо отправитель не tftp-rs / старой версии)"@,
    }
}

/// A piece of the file has been stored.
pub open spec fn file_piece(f: IncomingView, bytes: Seq<u8>) -> IncomingView {
    let size = transfer::counted(f.size, bytes.len());
    if f.fed {
        let s = f.state.session->0;
        IncomingView {
            state: LoopView {
                session: Some(session::SessionView { fed: s.fed + bytes, ..s }),
                ..f.state
            },
            size,
            ..f
        }
    } else {
        IncomingView { size, ..f }
    }
}

impl ReceiveLoop {
    /// A folder was created for an incoming file.
    pub fn folder_created(&mut self, id: u64)
        requires
            sound(old(self)@),
        ensures
            final(self)@ == (LoopView { created: old(self)@.created.push(id), ..old(self)@ }),
            sound(final(self)@),
    {
        self.created.push(id);
    }

    /// A file starts to come in. The line that says how much is to be expected.
    pub fn start_file(self, from: Endpoint, filename: String, mode: Mode) -> (r: (
        IncomingFile,
        String,
    ))
        requires
            sound(self@),
        ensures
            r.0@ == file_started(self@, from, filename@, mode),
            fits(r.0@),
            r.1@ == total_line(r.0@.total),
    {
        let ghost l = self@;
        let mut state = self;
        let mut in_session = false;
        let mut fed = false;
        let mut problem: Option<String> = None;
        let mut base: u64 = 0;
        let mut total: Option<u64> = None;
        let own = mode == Mode::Octet && state.session_ip == Some(from.ip);
        if own {
            if let Some(mut s) = state.session.take() {
                if !s.decided() {
                    in_session = true;
                    match s.start_file(filename.as_str()) {
                        Ok(_) => {
                            fed = true;
                            let (b, t) = s.sizes();
                            base = b;
                            total = Some(t);
                        },
                        Err(m) => {
                            problem = Some(m);
                        },
                    }
                }
                state.session = Some(s);
            }
        }
        let line = match total {
            Some(t) => {
                let mut m = "  общий размер известен из списка отправителя: ".to_owned();
                text::push_dec(&mut m, t);
                m.append(" байт");
                m
            },
            None =>
                "  общий размер неизвестен: список файлов от отправителя не получен (обычный TFTP-клиент, либо отправитель не tftp-rs / старой версии)".to_owned(),
        };
        (
            IncomingFile {
                state,
                from,
                filename,
                in_session,
                fed,
                problem,
                base,
                total,
                size: 0,
            },
            line,
        )
    }
}

impl IncomingFile {
    /// A piece of the file has been stored.
    pub fn write(&mut self, bytes: &[u8])
        requires
            fits(old(self)@),
        ensures
            final(self)@ == file_piece(old(self)@, bytes@),
            fits(final(self)@),
    {
        if self.fed {
            if let Some(mut s) = self.state.session.take() {
                s.content(bytes);
                self.state.session = Some(s);
            }
        }
        self.size = transfer::count(self.size, bytes.len());
    }

    /// The progress to report when `got` bytes of the file have come: where the list of the
    /// sender is known, the progress in the whole of it.
    pub fn progress(&self, got: u64) -> (r: (u64, Option<u64>))
        ensures
            r == (transfer::counted(self@.base, got as nat), self@.total),
    {
        (self.base.wrapping_add(got), self.total)
    }
}

/// A file that came in whole, before it gets its name.
pub struct Settled {
    state: ReceiveLoop,
    from: Endpoint,
    filename: String,
    rx: Received,
    in_session: bool,
    problem: Option<String>,
    verdict: Option<Result<(), String>>,
}

#[verifier::ext_equal]
pub struct SettledView {
    pub state: LoopView,
    pub from: Endpoint,
    pub filename: Seq<char>,
    pub rx: Received,
    pub in_session: bool,
    /// What is wrong with the file, if anything.
    pub problem: Option<Seq<char>>,
    /// The outcome of the check, if this file has brought it about.
    pub verdict: Option<Result<(), Seq<char>>>,
}

impl View for Settled {
    type V = SettledView;

    closed spec fn view(&self) -> SettledView {
        SettledView {
            state: self.state@,
            from: self.from,
            filename: self.filename@,
            rx: self.rx,
            in_session: self.in_session,
            problem: discover::text_view(self.problem),
            verdict: session::verdict_view(self.verdict),
        }
    }
}

/// What to do with a file when its transfer has ended.
pub enum Ended {
    /// Give it its name, then go on with `stored`.
    Keep(Settled),
    /// Remove it; a log line may say why.
    Drop(ReceiveLoop, Option<String>),
}

pub enum EndedView {
    Keep(SettledView),
    Drop(LoopView, Option<Seq<char>>),
}

impl View for Ended {
    type V = EndedView;

    open spec fn view(&self) -> EndedView {
        match self {
            Ended::Keep(s) => EndedView::Keep(s@),
            Ended::Drop(l, m) => EndedView::Drop(l@, discover::text_view(*m)),
        }
    }
}

/// A file has come in whole.
pub open spec fn file_settled(f: IncomingView, rx: Received) -> SettledView {
    let plain = SettledView {
        state: f.state,
        from: f.from,
        filename: f.filename,
        rx,
        in_session: f.in_session,
        problem: f.problem,
        verdict: None,
    };
    if f.in_session {
        let (t, p) = session::finished(f.state.session->0, f.filename, f.fed, f.size);
        SettledView {
            state: LoopView { session: Some(t), ..f.state },
            problem: match p {
                Some(m) => Some(m),
                None => f.problem,
            },
            verdict: t.verdict,
            ..plain
        }
    } else {
        plain
    }
}

/// The transfer of a file broke off.
pub open spec fn file_broken(f: IncomingView, why: Seq<char>) -> LoopView {
    if f.in_session {
        LoopView {
            session: Some(session::aborted(f.state.session->0, f.filename, why)),
            ..f.state
        }
    } else {
        f.state
    }
}

/// What to do with a file when its transfer has ended. What the user stopped leaves no trace.
pub open spec fn file_ended(f: IncomingView, res: Result<Received, error::ErrorView>) -> EndedView {
    match res {
        Ok(rx) => EndedView::Keep(file_settled(f, rx)),
        Err(error::ErrorView::Cancelled) => EndedView::Drop(f.state, None),
        Err(e) => EndedView::Drop(
            file_broken(f, error::error_text(e)),
            Some("Ошибка приёма "@ + f.filename + ": "@ + error::error_text(e)),
        ),
    }
}

/// The line that reports the outcome of the check, if it has come.
pub open spec fn verdict_lines(s: SettledView) -> Seq<Seq<char>> {
    match s.verdict {
        Some(Ok(_)) => seq![
            "✓ Общая контрольная сумма совпала (файлов: "@ + text::dec(
                match s.state.session {
                    Some(t) => t.files.len(),
                    None => 0,
                },
            ) + ")"@,
        ],
        Some(Err(m)) => seq!["Ошибка: "@ + m],
        None => Seq::empty(),
    }
}

/// The line of a file that is in its place.
pub open spec fn kept_line(s: SettledView, shown: Seq<char>) -> Seq<char> {
    "✓ "@ + s.filename + ": "@ + text::dec(s.rx.total as nat) + " байт"@ + (if s.in_session {
        ""@
    } else {
        ", контрольная сумма не проверялась"@
    }) + " → "@ + shown
}

/// At most one line.
pub open spec fn maybe(line: Option<Seq<char>>) -> Seq<Seq<char>> {
    match line {
        Some(m) => seq![m],
        None => Seq::empty(),
    }
}

/// The lines of a file that is in its place; `ack` is what sending the last
/// acknowledgement failed with, if it did.
pub open spec fn kept_lines(s: SettledView, shown: Seq<char>, ack: Option<Seq<char>>) -> Seq<
    Seq<char>,
> {
    maybe(
        match ack {
            Some(e) => Some("Ошибка: не удалось отправить последний ACK: "@ + e),
            None => None,
        },
    ) + seq![kept_line(s, shown)] + maybe(
        match s.problem {
            Some(p) => Some("Ошибка: "@ + p),
            None => None,
        },
    ) + verdict_lines(s)
}

impl IncomingFile {
    /// The transfer of the file has ended.
    pub fn ended(self, res: Result<Received, TftpError>) -> (r: Ended)
        requires
            fits(self@),
        ensures
            r@ == file_ended(
                self@,
                match res {
                    Ok(rx) => Ok(rx),
                    Err(e) => Err(e@),
                },
            ),
            match r {
                Ended::Keep(s) => sound(s@.state),
                Ended::Drop(l, _) => sound(l@),
            },
    {
        let mut state = self.state;
        match res {
            Ok(rx) => {
                let mut problem = self.problem;
                let mut verdict: Option<Result<(), String>> = None;
                if self.in_session {
                    if let Some(mut s) = state.session.take() {
                        let p = s.finish_file(self.filename.as_str(), self.fed, self.size);
                        if p.is_some() {
                            problem = p;
                        }
                        verdict = s.outcome();
                        state.session = Some(s);
                    }
                }
                Ended::Keep(
                    Settled {
                        state,
                        from: self.from,
                        filename: self.filename,
                        rx,
                        in_session: self.in_session,
                        problem,
                        verdict,
                    },
                )
            },
            Err(TftpError::Cancelled) => Ended::Drop(state, None),
            Err(e) => {
                let why = e.message();
                if self.in_session {
                    if let Some(mut s) = state.session.take() {
                        s.abort_file(self.filename.as_str(), why.as_str());
                        state.session = Some(s);
                    }
                }
                let mut m = "Ошибка приёма ".to_owned();
                m.append(self.filename.as_str());
                m.append(": ");
                m.append(why.as_str());
                Ended::Drop(state, Some(m))
            },
        }
    }
}

/// A file that is in its place, before its last block has been acknowledged.
pub struct InPlace {
    settled: Settled,
}

impl View for InPlace {
    type V = SettledView;

    closed spec fn view(&self) -> SettledView {
        self.settled@
    }
}

/// What follows when a file was given its name, or could not be.
pub enum Stored {
    /// Send this packet, the last acknowledgement, then go on with `kept`.
    Ack(InPlace, Vec<u8>),
    /// Remove the file, and send this packet to this address in place of the last
    /// acknowledgement. The log lines.
    Refuse(ReceiveLoop, Vec<u8>, Endpoint, Vec<String>),
}

impl Settled {
    /// Appends the line that reports the outcome of the check, if it has come.
    fn push_verdict(&self, lines: &mut Vec<String>)
        ensures
            text::texts(final(lines)@) == text::texts(old(lines)@) + verdict_lines(self@),
    {
        match &self.verdict {
            Some(Ok(_)) => {
                let n: usize = match &self.state.session {
                    Some(s) => s.file_count(),
                    None => 0,
                };
                let mut m = "✓ Общая контрольная сумма совпала (файлов: ".to_owned();
                text::push_dec(&mut m, n as u64);
                m.append(")");
                text::push_text(lines, m);
            },
            Some(Err(e)) => text::push_text(lines, line2("Ошибка: ", e.as_str())),
            None => {
                assert(text::texts(lines@) + Seq::<Seq<char>>::empty() =~= text::texts(lines@));
            },
        }
    }

    /// The file was given its name, or could not be. The last acknowledgement goes out only
    /// when the file is in its place: when it comes, the other side takes the file for stored.
    pub fn stored(self, renamed: Result<(), IoFailure>, shown: &str) -> (r: Stored)
        requires
            sound(self@.state),
        ensures
            match renamed {
                Ok(_) => r matches Stored::Ack(p, ack) && p@ == self@ && ack@
                    == packet::ack_packet(self@.rx.last_block),
                Err(e) => r matches Stored::Refuse(l, reply, to, lines) && {
                    &&& l@ == self@.state
                    &&& sound(l@)
                    &&& reply@ == packet::error_packet(0, "Cannot store file"@)
                    &&& to == self@.rx.peer
                    &&& text::texts(lines@) == seq![
                        "Ошибка: не удалось сохранить "@ + shown@ + ": "@ + e.text@,
                    ] + verdict_lines(self@)
                },
            },
    {
        let e = match renamed {
            Ok(_) => {
                let ack = transfer::ack_final(&self.rx);
                return Stored::Ack(InPlace { settled: self }, ack);
            },
            Err(e) => e,
        };
        let mut lines: Vec<String> = Vec::new();
        let mut m = "Ошибка: не удалось сохранить ".to_owned();
        m.append(shown);
        m.append(": ");
        m.append(e.text.as_str());
        text::push_text(&mut lines, m);
        assert(text::texts(lines@) =~= seq![m@]);
        self.push_verdict(&mut lines);
        let to = self.rx.peer;
        Stored::Refuse(self.state, transfer::fail_final(0, "Cannot store file"), to, lines)
    }

    fn kept_text(&self, shown: &str) -> (m: String)
        ensures
            m@ == kept_line(self@, shown@),
    {
        let mut m = "✓ ".to_owned();
        m.append(self.filename.as_str());
        m.append(": ");
        text::push_dec(&mut m, self.rx.total);
        m.append(" байт");
        m.append(
            if self.in_session {
                ""
            } else {
                ", контрольная сумма не проверялась"
            },
        );
        m.append(" → ");
        m.append(shown);
        m
    }

}

impl InPlace {
    /// Who sent the file, and the number of its last block.
    pub fn received(&self) -> (r: Received)
        ensures
            r == self@.rx,
    {
        self.settled.rx
    }

    /// The file is in its place, under path number `id`, and the last acknowledgement was
    /// sent, or not. The log lines.
    pub fn kept(self, now: u64, id: u64, shown: &str, ack: Result<(), TftpError>) -> (r: (
        ReceiveLoop,
        Vec<String>,
    ))
        requires
            sound(self@.state),
        ensures
            r.0@ == (LoopView {
                received: self@.state.received.push((id, shown@)),
                last_done: Some((self@.from, self@.filename, now)),
                ..self@.state
            }),
            sound(r.0@),
            text::texts(r.1@) == kept_lines(
                self@,
                shown@,
                match ack {
                    Ok(_) => None,
                    Err(e) => Some(error::error_text(e@)),
                },
            ),
    {
        let settled = self.settled;
        let mut lines: Vec<String> = Vec::new();
        assert(text::texts(lines@) =~= Seq::empty());
        if let Err(e) = &ack {
            text::push_text(
                &mut lines,
                line2("Ошибка: не удалось отправить последний ACK: ", e.message().as_str()),
            );
        }
        let ghost first = text::texts(lines@);
        let line = settled.kept_text(shown);
        text::push_text(&mut lines, line);
        let ghost second = text::texts(lines@);
        match &settled.problem {
            Some(p) => text::push_text(&mut lines, line2("Ошибка: ", p.as_str())),
            None => {
                assert(second + Seq::<Seq<char>>::empty() =~= second);
            },
        }
        settled.push_verdict(&mut lines);
        proof {
            match &ack {
                Ok(_) => {
                    assert(first =~= Seq::empty());
                },
                Err(e) => {
                    assert(first =~= seq![
                        "Ошибка: не удалось отправить последний ACK: "@ + error::error_text(e@),
                    ]);
                },
            }
        }
        let mut l = settled.state;
        let ghost before = l.received@;
        l.received.push(Kept { id, shown: shown.to_owned() });
        assert(kept(l.received@) =~= kept(before).push((id, shown@)));
        l.last_done = Some(Served { from: settled.from, name: settled.filename, at: now });
        (l, lines)
    }
}

// ---------------------------------------------------------------- stopping
/// What is left to remove after the user stopped the program.
pub struct Cleanup {
    files: Vec<Kept>,
    folders: Vec<u64>,
    removed: usize,
}

#[verifier::ext_equal]
pub struct CleanupView {
    /// Files and folders that are still to be removed, in the order in which they came to be.
    pub files: Seq<(u64, Seq<char>)>,
    pub folders: Seq<u64>,
    /// How many files have been removed.
    pub removed: nat,
}

impl View for Cleanup {
    type V = CleanupView;

    closed spec fn view(&self) -> CleanupView {
        CleanupView {
            files: kept(self.files@),
            folders: self.folders@,
            removed: self.removed as nat,
        }
    }
}

/// Whether the number of removed files can be counted on.
pub open spec fn countable(c: CleanupView) -> bool {
    c.removed + c.files.len() <= usize::MAX
}

impl ReceiveLoop {
    /// The user stopped the program: everything that came in is to be removed.
    pub fn stop(self) -> (r: Cleanup)
        ensures
            r@ == (CleanupView { files: self@.received, folders: self@.created, removed: 0 }),
            countable(r@),
    {
        let r = Cleanup { files: self.received, folders: self.created, removed: 0 };
        assert(self.received.len() <= usize::MAX);
        r
    }
}

impl Cleanup {
    /// The file to remove next: the one that came last.
    pub fn next_file(&self) -> (r: Option<u64>)
        ensures
            r == if self@.files.len() == 0 {
                None
            } else {
                Some(self@.files.last().0)
            },
    {
        if self.files.len() == 0 {
            None
        } else {
            let i: usize = self.files.len() - 1;
            assert(self@.files.last() == self.files@[i as int]@);
            Some(self.files[i].id)
        }
    }

    /// That file was removed, or not; one that is gone already is no failure. The log line,
    /// if any.
    pub fn file_removed(&mut self, res: Result<(), IoFailure>) -> (r: Option<String>)
        requires
            countable(old(self)@),
            old(self)@.files.len() > 0,
        ensures
            countable(final(self)@),
            final(self)@ == (CleanupView {
                files: old(self)@.files.drop_last(),
                removed: if res is Ok {
                    old(self)@.removed + 1
                } else {
                    old(self)@.removed
                },
                ..old(self)@
            }),
            match res {
                Ok(_) => r is None,
                Err(e) => if e.kind == IoKind::NotFound {
                    r is None
                } else {
                    discover::text_view(r) == Some(
                        "Ошибка: не удалось удалить "@ + old(self)@.files.last().1 + ": "@
                            + e.text@,
                    )
                },
            },
    {
        let ghost before = self.files@;
        let file = match self.files.pop() {
            Some(f) => f,
            None => {
                return None;
            },
        };
        assert(kept(self.files@) =~= kept(before).drop_last());
        assert(kept(before).last() == file@);
        match res {
            Ok(_) => {
                self.removed = self.removed + 1;
                None
            },
            Err(e) => {
                if e.kind == IoKind::NotFound {
                    return None;
                }
                let mut m = "Ошибка: не удалось удалить ".to_owned();
                m.append(file.shown.as_str());
                m.append(": ");
                m.append(e.text.as_str());
                Some(m)
            },
        }
    }

    /// The folder to remove next: the one created last, which is the deepest. One that
    /// holds files of others is not empty and stays.
    pub fn next_folder(&mut self) -> (r: Option<u64>)
        ensures
            match r {
                Some(id) => {
                    &&& old(self)@.folders.len() > 0
                    &&& id == old(self)@.folders.last()
                    &&& final(self)@ == (CleanupView {
                        folders: old(self)@.folders.drop_last(),
                        ..old(self)@
                    })
                },
                None => old(self)@.folders.len() == 0 && final(self)@ == old(self)@,
            },
    {
        self.folders.pop()
    }

    /// The last log lines.
    pub fn finish(self) -> (r: Vec<String>)
        ensures
            text::texts(r@) == maybe(
                if self@.removed > 0 {
                    Some("Удалено принятых файлов: "@ + text::dec(self@.removed))
                } else {
                    None
                },
            ) + seq!["Приём остановлен"@],
    {
        let mut lines: Vec<String> = Vec::new();
        assert(text::texts(lines@) =~= Seq::empty());
        if self.removed > 0 {
            let mut m = "Удалено принятых файлов: ".to_owned();
            text::push_dec(&mut m, self.removed as u64);
            text::push_text(&mut lines, m);
            assert(text::texts(lines@) =~= seq![m@]);
        }
        text::push_text(&mut lines, "Приём остановлен".to_owned());
        lines
    }
}

// ---------------------------------------------------------------- laws
/// Nothing can be read but the outcome of the check: every other request to read is
/// answered with an error of code 2, and no request to read is ever taken for a file.
pub proof fn law_reads_are_refused(
    l: LoopView,
    now: u64,
    from: Endpoint,
    ip: Seq<char>,
    p: Seq<u8>,
)
    requires
        p.len() >= 2,
        packet::word_at(p, 0) == OP_RRQ,
    ensures
        !(asked(l, now, from, ip, p) is Incoming),
        !(asked(l, now, from, ip, p) is Manifest),
        (packet::rq_texts(p) matches Some(t) ==> t.0 != RESULT_NAME@) ==> asked(
            l,
            now,
            from,
            ip,
            p,
        ) == RequestView::Reply(
            packet::error_packet(2, "Read is not allowed"@),
            Some(
                read_refused_line(
                    match packet::rq_texts(p) {
                        Some(t) => Some(t.0),
                        None => None,
                    },
                    ip,
                ),
            ),
        ),
{
    lemma_requests_are_no_questions(p);
}

proof fn lemma_requests_are_no_questions(p: Seq<u8>)
    requires
        p.len() >= 2,
        packet::word_at(p, 0) < 256,
    ensures
        !discover::asks(p),
{
    let d = encode_utf8(discover::DISCOVER_MAGIC@);
    reveal_strlit("TFTP-DISCOVER");
    assert(is_ascii_chars(discover::DISCOVER_MAGIC@));
    is_ascii_chars_encode_utf8(discover::DISCOVER_MAGIC@);
    assert(d[0] == 'T' as u8);
    if discover::asks(p) {
        assert(p.take(d.len() as int)[0] == d[0]);
        assert(p[0] == 84);
    }
}

/// A request that was just dealt with and comes again from the same place is let go: a
/// second copy of a file is not taken in, and an outcome is not sent twice.
pub proof fn law_duplicates_are_ignored(
    l: LoopView,
    now: u64,
    at: u64,
    from: Endpoint,
    ip: Seq<char>,
    name: Seq<char>,
    mode: Seq<char>,
)
    requires
        is_recent(now, at),
        packet::mode_named(mode) is Some,
    ensures
        l.last_done == Some((from, name, at)) ==> write_asked(l, now, from, ip, Some((name, mode)))
            == RequestView::Ignore,
        l.last_result == Some((from, at)) ==> read_asked(l, now, from, ip, Some(RESULT_NAME@))
            == RequestView::Ignore,
{
}

/// A file that does not concern the check (it comes from someone else, as text, or when
/// the outcome is known) leaves the check as it is, however it ends.
pub proof fn law_others_leave_the_check_alone(
    l: LoopView,
    from: Endpoint,
    filename: Seq<char>,
    mode: Mode,
    bytes: Seq<u8>,
    res: Result<Received, error::ErrorView>,
)
    requires
        !concerns(l, from, mode),
    ensures
        l.session_ip != Some(from.ip) ==> !concerns(l, from, mode),
        ({
            let f = file_piece(file_started(l, from, filename, mode), bytes);
            &&& !f.in_session
            &&& f.state == l
            &&& f.total is None
            &&& match file_ended(f, res) {
                EndedView::Keep(s) => s.state == l && s.verdict is None && s.problem is None,
                EndedView::Drop(after, _) => after == l,
            }
        }),
{
}

/// A file that concerns the check and comes in whole counts for the check exactly as its
/// name and contents say.
pub proof fn law_file_counts_for_the_check(
    l: LoopView,
    from: Endpoint,
    filename: Seq<char>,
    contents: Seq<u8>,
    rx: Received,
)
    requires
        sound(l),
        concerns(l, from, Mode::Octet),
    ensures
        ({
            let f = file_piece(file_started(l, from, filename, Mode::Octet), contents);
            let s = file_settled(f, rx);
            let t = session::after_file(l.session->0, filename, contents);
            &&& s.state == (LoopView { session: Some(t), ..l })
            &&& s.verdict == t.verdict
        }),
{
}

/// Storing a file piece by piece comes to the same as storing it at once.
pub proof fn law_pieces_add_up(f: IncomingView, a: Seq<u8>, b: Seq<u8>)
    ensures
        file_piece(file_piece(f, a), b) == file_piece(f, a + b),
{
    assert(f.state.session->0.fed + a + b =~= f.state.session->0.fed + (a + b));
}

/// The progress never jumps: where the files of the list come one after another, the next
/// one starts to count where the one before ended, and the total stays the same.
pub proof fn law_progress_is_continuous(
    l: LoopView,
    from: Endpoint,
    a: Seq<char>,
    contents: Seq<u8>,
    rx: Received,
    b: Seq<char>,
)
    requires
        sound(l),
        file_started(l, from, a, Mode::Octet).fed,
        l.session->0.files[l.session->0.next as int].1 == transfer::counted(0, contents.len()),
        ({
            let f = file_piece(file_started(l, from, a, Mode::Octet), contents);
            file_started(file_settled(f, rx).state, from, b, Mode::Octet).fed
        }),
    ensures
        ({
            let f = file_piece(file_started(l, from, a, Mode::Octet), contents);
            let g = file_started(file_settled(f, rx).state, from, b, Mode::Octet);
            &&& g.base == transfer::counted(f.base, contents.len())
            &&& g.total == f.total
            &&& f.total is Some
        }),
{
    let s = l.session->0;
    assert(session::size_sum(s.files, s.next as int + 1) == transfer::counted(
        session::size_sum(s.files, s.next as int),
        s.files[s.next as int].1 as nat,
    ));
}

/// When the check has succeeded, who sent the files is answered `OK` with their number,
/// and when that answer has arrived the program ends by itself; otherwise it never does.
pub proof fn law_success_ends_the_program(
    l: LoopView,
    now: u64,
    from: Endpoint,
    ip: Seq<char>,
    d: Delivery,
)
    requires
        l.last_result matches Some((who, at)) ==> !(who == from && is_recent(now, at)),
    ensures
        (own_session(l, from.ip) matches Some(s) && session::passed(s.verdict)) ==> {
            &&& read_asked(l, now, from, ip, Some(RESULT_NAME@)) == RequestView::Result(
                encode_utf8("OK\n"@ + text::dec(l.session->0.files.len()) + "\n"@),
            )
            &&& d is Sent ==> complete(l, from, d)
        },
        !(own_session(l, from.ip) matches Some(s) && session::passed(s.verdict)) ==> !complete(
            l,
            from,
            d,
        ),
        !(d is Sent) ==> !complete(l, from, d),
        answered(l, now, from).session is Some ==> l.session_ip != Some(from.ip),
{
}

/// The check from beginning to end: the list that the sender wrote is taken, its files
/// come in whole and in order from the same address, and the outcome is a success.
pub proof fn law_announced_files_pass(
    l: LoopView,
    now: u64,
    from: Endpoint,
    files: Seq<(Seq<char>, Seq<u8>)>,
)
    requires
        files.len() > 0,
    ensures
        ({
            let start = session::fresh(
                crate::outside::blake3_hex(session::feed_all(files)),
                session::list_of(files),
            );
            let taken = list_taken(l, now, from, Some(start));
            &&& own_session(taken, from.ip) == Some(start)
            &&& session::passed(session::after_files(start, files).verdict)
            &&& forall|n: int|
                0 <= n < files.len() ==> (#[trigger] session::after_files(
                    start,
                    files.take(n),
                )).verdict is None
        }),
{
    let start = session::fresh(
        crate::outside::blake3_hex(session::feed_all(files)),
        session::list_of(files),
    );
    session::law_intact_transfer_passes(files, 0);
    assert forall|n: int| 0 <= n < files.len() implies (#[trigger] session::after_files(
        start,
        files.take(n),
    )).verdict is None by {
        session::law_intact_transfer_passes(files, n);
    }
}

// ---------------------------------------------------------------- what the program does
/// A request to write that is understood brings in just the file it names, in its mode,
/// unless it was dealt with a short while ago; under the name of the list it brings in the
/// list, byte for byte only. One that is not understood is refused with error 4.
pub proof fn law_files_come_in_as_asked(
    l: LoopView,
    now: u64,
    from: Endpoint,
    ip: Seq<char>,
    name: Seq<char>,
    mode: Seq<char>,
)
    ensures
        ({
            let r = write_asked(l, now, from, ip, Some((name, mode)));
            let repeated = l.last_done matches Some((who, what, at)) && who == from && what == name
                && now - at < 10_000_000_000;
            &&& packet::mode_named(mode) is None ==> r == RequestView::Reply(
                packet::mode_refusal(mode),
                Some("← "@ + name + " от "@ + ip + ": режим «"@ + mode + "» не поддерживается"@),
            )
            &&& packet::mode_named(mode) matches Some(m) ==> {
                &&& repeated ==> r == RequestView::Ignore
                &&& !repeated && name != "tftp:manifest:blake3"@ ==> r == RequestView::Incoming(
                    name,
                    m,
                )
                &&& !repeated && name == "tftp:manifest:blake3"@ && m == Mode::Octet ==> r
                    == RequestView::Manifest
                &&& !repeated && name == "tftp:manifest:blake3"@ && m == Mode::Netascii ==> r
                    == RequestView::Reply(
                    packet::error_packet(4, "Manifest must be sent in octet mode"@),
                    None,
                )
            }
        }),
        write_asked(l, now, from, ip, None) == RequestView::Reply(
            packet::error_packet(4, "Malformed request"@),
            None,
        ),
{
}

/// The outcome of the check is all that can be read: whoever asks is told about their own
/// files, unless they asked a short while ago.
pub proof fn law_only_the_outcome_is_read(
    l: LoopView,
    now: u64,
    from: Endpoint,
    ip: Seq<char>,
    name: Option<Seq<char>>,
)
    ensures
        name != Some("tftp:result"@) ==> read_asked(l, now, from, ip, name) == RequestView::Reply(
            packet::error_packet(2, "Read is not allowed"@),
            Some(
                "← RRQ "@ + (match name {
                    Some(n) => n,
                    None => "?"@,
                }) + " от "@ + ip + ": чтение запрещено (Read is not allowed)"@,
            ),
        ),
        ({
            let repeated = l.last_result matches Some((who, at)) && who == from && now - at
                < 10_000_000_000;
            read_asked(l, now, from, ip, Some("tftp:result"@)) == if repeated {
                RequestView::Ignore
            } else if l.session_ip == Some(from.ip) && l.session is Some {
                RequestView::Result(encode_utf8(session::report(l.session->0)))
            } else {
                RequestView::Result(
                    encode_utf8("FAIL\nсписок файлов и контрольная сумма не были получены\n"@),
                )
            }
        }),
{
}

/// Those who look for devices are answered; otherwise only requests to read and to write
/// are dealt with.
pub proof fn law_packets_are_told_apart(
    l: LoopView,
    now: u64,
    from: Endpoint,
    ip: Seq<char>,
    p: Seq<u8>,
)
    ensures
        discover::asks(p) ==> asked(l, now, from, ip, p) == RequestView::Reply(l.hello, None),
        !discover::asks(p) && (p.len() < 2 || p[0] != 0 || (p[1] != 1 && p[1] != 2)) ==> asked(
            l,
            now,
            from,
            ip,
            p,
        ) == RequestView::Ignore,
        !discover::asks(p) && p.len() >= 2 && p[0] == 0 && p[1] == 2 ==> asked(l, now, from, ip, p)
            == write_asked(l, now, from, ip, packet::rq_texts(p)),
        !discover::asks(p) && p.len() >= 2 && p[0] == 0 && p[1] == 1 ==> asked(l, now, from, ip, p)
            == read_asked(
            l,
            now,
            from,
            ip,
            match packet::rq_texts(p) {
                Some(t) => Some(t.0),
                None => None,
            },
        ),
{
    if p.len() >= 2 {
        assert(p[0] * 256 + p[1] <= 0xffff);
    }
}

/// A list starts the check of the files of its sender and replaces the one before; a list
/// that cannot be read leaves everything as it was. Its repetition is recognised.
pub proof fn law_list_starts_a_check(
    l: LoopView,
    now: u64,
    from: Endpoint,
    s: session::SessionView,
)
    ensures
        list_taken(l, now, from, Some(s)) == (LoopView {
            session: Some(s),
            session_ip: Some(from.ip),
            last_done: Some((from, "tftp:manifest:blake3"@, now)),
            ..l
        }),
        list_taken(l, now, from, None) == (LoopView {
            last_done: Some((from, "tftp:manifest:blake3"@, now)),
            ..l
        }),
        list_line(Some(s)) == "← получена общая контрольная сумма ("@ + text::head(s.expected, 8)
            + "…), файлов: "@ + text::dec(s.files.len()),
        list_line(None) == "Ошибка: список от отправителя повреждён, проверка невозможна"@,
{
}

/// When the outcome has been told, the check of that sender is over; that of another goes
/// on. Nothing that was received is forgotten.
pub proof fn law_outcome_ends_the_check(l: LoopView, now: u64, from: Endpoint, d: Delivery)
    ensures
        answered(l, now, from).last_result == Some((from, now)),
        l.session_ip == Some(from.ip) ==> answered(l, now, from).session is None && answered(
            l,
            now,
            from,
        ).session_ip is None,
        l.session_ip != Some(from.ip) ==> answered(l, now, from).session == l.session && answered(
            l,
            now,
            from,
        ).session_ip == l.session_ip,
        answered(l, now, from).hello == l.hello,
        answered(l, now, from).last_done == l.last_done,
        answered(l, now, from).received == l.received,
        answered(l, now, from).created == l.created,
        delivery_line(d) == match d {
            Delivery::NoSocket(e) => Some(
                "Ошибка: не удалось открыть сокет передачи: "@ + e.text@,
            ),
            Delivery::Failed(e) => Some(
                "Ошибка: не удалось отправить результат проверки: "@ + error::error_text(e@),
            ),
            Delivery::Sent => None,
            Delivery::Stopped => None,
        },
{
}

/// A file that starts to come in is remembered under its name and its sender. It belongs to
/// the check if its bytes come as they are, its sender has a check and that has no outcome
/// yet; and the progress is then known, if it is the next file of the list.
pub proof fn law_file_starts(l: LoopView, from: Endpoint, filename: Seq<char>, mode: Mode)
    ensures
        ({
            let f = file_started(l, from, filename, mode);
            let checked = mode == Mode::Octet && l.session_ip == Some(from.ip) && l.session is Some
                && l.session->0.verdict is None;
            &&& f.from == from
            &&& f.filename == filename
            &&& f.size == 0
            &&& f.in_session == checked
            &&& f.state.received == l.received
            &&& f.state.created == l.created
            &&& f.state.last_done == l.last_done
            &&& f.state.last_result == l.last_result
            &&& f.state.session_ip == l.session_ip
            &&& f.state.hello == l.hello
            &&& !checked ==> f.state.session == l.session && !f.fed && f.problem is None && f.base
                == 0 && f.total is None
            &&& checked ==> {
                let s = l.session->0;
                &&& f.state.session == Some(session::started(s, filename).0)
                &&& f.fed <==> s.next < s.files.len() && s.files[s.next as int].0 == filename
                &&& f.fed ==> f.problem is None && f.base == session::size_sum(
                    s.files,
                    s.next as int,
                ) && f.total == Some(session::size_sum(s.files, s.files.len() as int))
                &&& !f.fed ==> f.base == 0 && f.total is None && f.problem is Some
            }
        }),
{
    session::law_next_file_counts(l.session->0, filename);
}

/// Every piece of a file counts with all its bytes: for its size, and for the hash if the
/// file belongs to it.
pub proof fn law_every_piece_counts(f: IncomingView, bytes: Seq<u8>)
    ensures
        file_piece(f, bytes).size as int == (f.size + bytes.len()) % 0x1_0000_0000_0000_0000,
        file_piece(f, bytes).from == f.from,
        file_piece(f, bytes).filename == f.filename,
        file_piece(f, bytes).fed == f.fed,
        file_piece(f, bytes).in_session == f.in_session,
        file_piece(f, bytes).problem == f.problem,
        file_piece(f, bytes).base == f.base,
        file_piece(f, bytes).total == f.total,
        f.fed ==> file_piece(f, bytes).state == (LoopView {
            session: Some(
                session::SessionView {
                    fed: f.state.session->0.fed + bytes,
                    ..f.state.session->0
                },
            ),
            ..f.state
        }),
        !f.fed ==> file_piece(f, bytes).state == f.state,
{
}

/// A file whose transfer has succeeded is settled with just what the transfer ended with:
/// its sender, its last block and its length. So the last acknowledgement is that of the
/// last block that came.
pub proof fn law_file_is_settled_as_received(f: IncomingView, rx: Received)
    ensures
        file_ended(f, Ok(rx)) matches EndedView::Keep(s) && {
            &&& s.rx == rx
            &&& s.from == f.from
            &&& s.filename == f.filename
            &&& s.in_session == f.in_session
            &&& packet::ack_packet(s.rx.last_block) == seq![
                0u8,
                4u8,
                (rx.last_block / 256) as u8,
                (rx.last_block % 256) as u8,
            ]
            &&& !f.in_session ==> s.state == f.state && s.verdict is None && s.problem == f.problem
            &&& f.in_session ==> {
                let (t, p) = session::finished(f.state.session->0, f.filename, f.fed, f.size);
                &&& s.state == (LoopView { session: Some(t), ..f.state })
                &&& s.verdict == t.verdict
                &&& p is Some ==> s.problem == p
                &&& p is None ==> s.problem == f.problem
            }
        },
{
    packet::law_bytes_on_the_wire(
        rx.last_block,
        Seq::empty(),
        0,
        Seq::empty(),
        Seq::empty(),
        Mode::Octet,
    );
}

/// A file whose transfer has failed is dropped: a stop leaves no trace, and any other failure
/// is told and noted in the check, if the file belongs to it. What was received before stays.
pub proof fn law_broken_file_is_dropped(f: IncomingView, e: error::ErrorView)
    ensures
        file_ended(f, Err(error::ErrorView::Cancelled)) == EndedView::Drop(f.state, None),
        e != error::ErrorView::Cancelled ==> (file_ended(f, Err(e)) matches EndedView::Drop(l, m) && {
            &&& m == Some("Ошибка приёма "@ + f.filename + ": "@ + error::error_text(e))
            &&& !f.in_session ==> l == f.state
            &&& f.in_session ==> l == (LoopView {
                session: Some(
                    session::aborted(f.state.session->0, f.filename, error::error_text(e)),
                ),
                ..f.state
            })
        }),
{
}

/// What is logged about a file in its place: that its last block could not be acknowledged,
/// where that is so; its name, length and place, and whether it was checked; what is wrong
/// with it; and the outcome of the check, if it has come.
pub proof fn law_kept_file_is_reported(s: SettledView, shown: Seq<char>, e: Seq<char>)
    ensures
        ({
            let line = "✓ "@ + s.filename + ": "@ + text::dec(s.rx.total as nat) + " байт"@ + (
            if s.in_session {
                ""@
            } else {
                ", контрольная сумма не проверялась"@
            }) + " → "@ + shown;
            let wrong = match s.problem {
                Some(p) => seq!["Ошибка: "@ + p],
                None => Seq::empty(),
            };
            &&& kept_lines(s, shown, None) == seq![line] + wrong + verdict_lines(s)
            &&& kept_lines(s, shown, Some(e)) == seq![
                "Ошибка: не удалось отправить последний ACK: "@ + e,
            ] + (seq![line] + wrong + verdict_lines(s))
        }),
        s.verdict is None ==> verdict_lines(s) == Seq::<Seq<char>>::empty(),
        s.verdict matches Some(Err(m)) ==> verdict_lines(s) == seq!["Ошибка: "@ + m],
        s.verdict matches Some(Ok(_)) && s.state.session is Some ==> verdict_lines(s) == seq![
            "✓ Общая контрольная сумма совпала (файлов: "@ + text::dec(
                s.state.session->0.files.len(),
            ) + ")"@,
        ],
{
    let line = kept_line(s, shown);
    let wrong = match s.problem {
        Some(p) => seq!["Ошибка: "@ + p],
        None => Seq::empty(),
    };
    assert(kept_lines(s, shown, None) =~= seq![line] + wrong + verdict_lines(s));
    assert(kept_lines(s, shown, Some(e)) =~= seq![
        "Ошибка: не удалось отправить последний ACK: "@ + e,
    ] + (seq![line] + wrong + verdict_lines(s)));
}

/// What is said about the whole of the files: how large it is, where the list tells it.
pub proof fn law_total_is_announced(t: u64)
    ensures
        total_line(Some(t)) == "  общий размер известен из списка отправителя: "@ + text::dec(
            t as nat,
        ) + " байт"@,
        total_line(None)
            == "  общий размер неизвестен: список файлов от отправителя не получен (обычный TFTP-клиент, либо отправитель не tftp-rs / старой версии)"@,
{
}

} // verus!
