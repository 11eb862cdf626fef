use std::collections::VecDeque;
use tftp_rs::client::{
    bind_for, data_socket, fetch_bytes, get_ended, get_file, get_file_mode, get_renamed, granted_line,
    lookup_name, part_path, put_file, put_file_mode, put_reader, resolve, GetEnd, PutStep,
};
use tftp_rs::error::TftpError;
use tftp_rs::netascii::{NetasciiDecoder, NetasciiEncoder};
use tftp_rs::packet::{build_data, build_error, build_rq, Mode, OP_RRQ, OP_WRQ};
use tftp_rs::peer::{Endpoint, Ip};
use tftp_rs::transfer::{
    ack_final, dally, fail_final, may_dally, recv_blocks_deferred, send_blocks, ReadBlock, Received,
    Receiver, RecvStep, SendStep, Sending, StoreStep,
};
use tftp_rs::wait::{poll_wait, read_full, recv_packet, Arrival, Filled, Got, IoFailure, IoKind, Poll};

fn at(port: u16) -> Endpoint {
    Endpoint { ip: Ip::V4(0x7f00_0001), port, flow: 0, scope: 0 }
}

fn pattern(n: usize) -> Vec<u8> {
    (0..n).map(|i| (i * 31 % 251) as u8).collect()
}

fn io(kind: IoKind, text: &str) -> IoFailure {
    IoFailure { kind, text: text.to_string() }
}

/// Runs one transfer over a network that loses every packet whose turn `lose` names and
/// doubles every packet whose turn `double` names. What was stored, and what both sides counted.
fn exchange(
    data: &[u8],
    first: Receiver,
    lose: impl Fn(usize) -> bool,
    double: impl Fn(usize) -> bool,
) -> (Vec<u8>, u64, u64) {
    let sender = at(1);
    let receiver = at(2);
    let mut to_receiver: VecDeque<Vec<u8>> = VecDeque::new();
    let mut to_sender: VecDeque<Vec<u8>> = VecDeque::new();
    let mut turn = 0;
    let mut put = |q: &mut VecDeque<Vec<u8>>, p: Vec<u8>| {
        turn += 1;
        if lose(turn) {
            return;
        }
        q.push_back(p.clone());
        if double(turn) {
            q.push_back(p);
        }
    };

    let mut pos = 0;
    let mut read = |n: usize| {
        let end = (pos + n).min(data.len());
        let b = data[pos..end].to_vec();
        pos = end;
        b
    };
    let mut sending: Option<Sending> = None;
    match send_blocks().next(ReadBlock::Bytes(read(512))) {
        SendStep::Transmit(s) => {
            put(&mut to_receiver, s.packet.clone());
            sending = Some(s);
        }
        other => panic!("{other:?}"),
    }
    let mut recv: Option<Receiver> = Some(first);
    let mut stored: Vec<u8> = Vec::new();
    let mut done: Option<Received> = None;
    let mut sent_total = 0;
    let mut rounds = 0;

    while let Some(s) = sending.take() {
        rounds += 1;
        assert!(rounds < 1_000_000);
        // the receiving side deals with what has come
        while let Some(p) = to_receiver.pop_front() {
            if let Some(d) = &done {
                if let Some(ack) = dally(d.last_block, &p) {
                    put(&mut to_sender, ack);
                }
                continue;
            }
            let r = recv.take().unwrap();
            match r.heard(Got::Packet(sender, p)) {
                RecvStep::Store(pending) => {
                    stored.extend_from_slice(&pending.payload);
                    match pending.stored() {
                        StoreStep::Ack(r, to) => {
                            assert_eq!(to, sender);
                            put(&mut to_sender, r.last.clone());
                            recv = Some(r);
                        }
                        StoreStep::Done(d) => {
                            put(&mut to_sender, ack_final(&d));
                            done = Some(d);
                        }
                    }
                }
                RecvStep::Reply(r, p, to) => {
                    assert_eq!(to, sender);
                    put(&mut to_sender, p);
                    recv = Some(r);
                }
                RecvStep::Wait(r) => recv = Some(r),
                other => panic!("{other:?}"),
            }
        }
        let got = match to_sender.pop_front() {
            Some(p) => Got::Packet(receiver, p),
            None => Got::Silence,
        };
        match s.heard(got) {
            SendStep::Wait(s) => sending = Some(s),
            SendStep::Retransmit(s, line) => {
                assert!(line.starts_with("  таймаут, повтор блока "));
                put(&mut to_receiver, s.packet.clone());
                sending = Some(s);
            }
            SendStep::More(next) => match next.next(ReadBlock::Bytes(read(512))) {
                SendStep::Transmit(s) => {
                    put(&mut to_receiver, s.packet.clone());
                    sending = Some(s);
                }
                other => panic!("{other:?}"),
            },
            SendStep::Done(n) => sent_total = n,
            other => panic!("{other:?}"),
        }
    }
    (stored, sent_total, done.unwrap().total)
}

fn server_side() -> Receiver {
    recv_blocks_deferred(at(1), vec![0, 4, 0, 0], Some(at(1)))
}

#[test]
fn octet_put_get_all_sizes() {
    for &n in &[0usize, 1, 511, 512, 513, 1024, 5000] {
        let data = pattern(n);
        let (stored, sent, total) = exchange(&data, server_side(), |_| false, |_| false);
        assert_eq!(stored, data, "put {n}");
        assert_eq!((sent, total), (n as u64, n as u64));
        let (receiver, _) = get_file(at(9), "127.0.0.1", &format!("f{n}.bin"));
        let (stored, _, _) = exchange(&data, receiver, |_| false, |_| false);
        assert_eq!(stored, data, "get {n}");
    }
}

fn to_wire(text: &[u8]) -> Vec<u8> {
    let mut enc = NetasciiEncoder::with_newline(false);
    let mut wire = Vec::new();
    let mut chunks = text.chunks(512);
    loop {
        while enc.wants_input() {
            enc.supply(chunks.next().unwrap_or(&[]));
        }
        let part = enc.read(512);
        if part.is_empty() {
            return wire;
        }
        wire.extend(part);
    }
}

fn from_wire(stored: &[u8]) -> Vec<u8> {
    let mut dec = NetasciiDecoder::with_newline(false);
    let mut out = Vec::new();
    for block in stored.chunks(512) {
        out.extend(dec.write(block));
    }
    out.extend(dec.finish());
    out
}

#[test]
fn netascii_put_get() {
    let text: Vec<u8> = (0..3000).flat_map(|i| format!("строка {i}\n").into_bytes()).collect();
    let (stored, _, _) = exchange(&to_wire(&text), server_side(), |_| false, |_| false);
    let kept = from_wire(&stored);
    assert_eq!(kept, text);
    let (receiver, _) = get_file_mode(at(9), "127.0.0.1", "t.txt", Mode::Netascii);
    let (stored, _, _) = exchange(&to_wire(&kept), receiver, |_| false, |_| false);
    assert_eq!(from_wire(&stored), text);
}

#[test]
fn lost_and_doubled_packets_do_not_harm() {
    let data = pattern(20 * 512 + 17);
    for k in 2..7 {
        let (stored, sent, total) = exchange(&data, server_side(), |t| t % k == 0, |t| t % 3 == 1);
        assert_eq!(stored, data);
        assert_eq!((sent, total), (data.len() as u64, data.len() as u64));
    }
    // every second packet is doubled, none lost: an old ACK must not make a block go out twice
    let (stored, _, _) = exchange(&data, server_side(), |_| false, |_| true);
    assert_eq!(stored, data);
}

#[test]
fn block_number_wraps_around() {
    let n = 65_535 * 512 + 700;
    let data = pattern(n);
    let (stored, sent, total) = exchange(&data, server_side(), |_| false, |_| false);
    assert!(stored == data);
    assert_eq!((sent, total), (n as u64, n as u64));
    let (receiver, _) = get_file(at(9), "127.0.0.1", "big.bin");
    let (stored, sent, total) = exchange(&stored, receiver, |_| false, |_| false);
    assert!(stored == data);
    assert_eq!((sent, total), (n as u64, n as u64));
}

fn sending_first(block: &[u8]) -> Sending {
    match send_blocks().next(ReadBlock::Bytes(block.to_vec())) {
        SendStep::Transmit(s) => s,
        other => panic!("{other:?}"),
    }
}

#[test]
fn unexpected_opcode_gets_error_4() {
    let s = sending_first(&pattern(512));
    match s.heard(Got::Packet(at(2), vec![0, 3, 0, 1, 9, 9])) {
        SendStep::Fail(Some(reply), TftpError::Protocol(m)) => {
            assert_eq!(&reply[..4], &[0, 5, 0, 4]);
            assert_eq!(m, "получен пакет с недопустимым кодом операции 3");
        }
        other => panic!("{other:?}"),
    }
    // an option acknowledgement was never asked for
    let s = sending_first(&pattern(512));
    match s.heard(Got::Packet(at(2), vec![0, 6, 0, 1])) {
        SendStep::Fail(Some(reply), _) => assert_eq!(&reply[..4], &[0, 5, 0, 8]),
        other => panic!("{other:?}"),
    }
}

#[test]
fn foreign_tid_gets_error_5_and_transfer_survives() {
    match recv_packet(Some(at(7)), Ok(at(8))) {
        Arrival::Refuse(p) => assert_eq!(p, build_error(5, "Unknown transfer ID")),
        other => panic!("{other:?}"),
    }
    assert!(matches!(recv_packet(Some(at(7)), Ok(at(7))), Arrival::Deliver));
    assert!(matches!(recv_packet(None, Ok(at(8))), Arrival::Deliver));
    for kind in [IoKind::WouldBlock, IoKind::TimedOut, IoKind::Interrupted, IoKind::ConnectionReset] {
        assert!(matches!(recv_packet(None, Err(io(kind, "x"))), Arrival::Again));
    }
    match recv_packet(None, Err(io(IoKind::Other, "кабель"))) {
        Arrival::Fail(e) => assert_eq!(e.message(), "IO ошибка: кабель"),
        other => panic!("{other:?}"),
    }
    // the transfer goes on: 600 bytes make two blocks
    let data = pattern(600);
    let s = sending_first(&data[..512]);
    let next = match s.heard(Got::Packet(at(2), vec![0, 4, 0, 1])) {
        SendStep::More(n) => n,
        other => panic!("{other:?}"),
    };
    match next.next(ReadBlock::Bytes(data[512..].to_vec())) {
        SendStep::Transmit(s) => {
            assert_eq!(&s.packet[..4], &[0, 3, 0, 2]);
            assert_eq!(s.packet.len(), 4 + (600 - 512));
        }
        other => panic!("{other:?}"),
    }
}

#[test]
fn lost_final_ack_is_re_sent_dally() {
    let r = server_side();
    assert_eq!(r.last, vec![0, 4, 0, 0]);
    let data = [&[0u8, 3, 0, 1][..], b"short"].concat();
    let pending = match r.heard(Got::Packet(at(1), data.clone())) {
        RecvStep::Store(p) => p,
        other => panic!("{other:?}"),
    };
    assert_eq!(pending.payload, b"short");
    let done = match pending.stored() {
        StoreStep::Done(d) => d,
        other => panic!("{other:?}"),
    };
    assert_eq!(ack_final(&done), vec![0, 4, 0, 1]);
    assert_eq!(dally(done.last_block, &data), Some(vec![0, 4, 0, 1]));
    assert_eq!(dally(done.last_block, &[0, 3, 0, 2]), None);
    assert_eq!(dally(done.last_block, &[0, 4, 0, 1]), None);
    assert_eq!(dally(done.last_block, &[0, 3, 0]), None);
    assert!(may_dally(15) && !may_dally(16));
    assert_eq!(fail_final(0, "Cannot store file"), build_error(0, "Cannot store file"));
}

#[test]
fn silence_is_borne_five_times() {
    let mut s = sending_first(b"x");
    for i in 1..=5 {
        s = match s.heard(Got::Silence) {
            SendStep::Retransmit(s, line) => {
                assert_eq!(line, format!("  таймаут, повтор блока 1 ({i}/5)"));
                s
            }
            other => panic!("{other:?}"),
        };
    }
    assert!(matches!(s.heard(Got::Silence), SendStep::Fail(None, TftpError::Timeout)));

    let mut r = recv_blocks_deferred(at(9), vec![1], None);
    for i in 1..=5 {
        r = match r.heard(Got::Silence) {
            RecvStep::Resend(r, to, line) => {
                assert_eq!(to, at(9));
                assert_eq!(line, format!("  таймаут, повтор ({i}/5)"));
                r
            }
            other => panic!("{other:?}"),
        };
    }
    assert!(matches!(r.heard(Got::Silence), RecvStep::Fail(None, TftpError::Timeout)));

    let (mut q, line) = put_reader(at(69), "a.bin", Mode::Octet, "10.0.0.1");
    assert_eq!(line, "→ WRQ a.bin на 10.0.0.1");
    for i in 1..=5 {
        q = match q.heard(Got::Silence) {
            PutStep::Retry(q, line) => {
                assert_eq!(line, format!("  таймаут, повтор WRQ ({i}/5)"));
                q
            }
            other => panic!("{other:?}"),
        };
    }
    assert!(matches!(q.heard(Got::Silence), PutStep::Fail(None, TftpError::Timeout)));
}

#[test]
fn cancellation_is_told_to_the_other_side() {
    let word = build_error(0, "Transfer cancelled");
    match sending_first(b"x").heard(Got::Cancelled) {
        SendStep::Fail(Some(p), TftpError::Cancelled) => assert_eq!(p, word),
        other => panic!("{other:?}"),
    }
    match send_blocks().next(ReadBlock::Cancelled) {
        SendStep::Fail(Some(p), TftpError::Cancelled) => assert_eq!(p, word),
        other => panic!("{other:?}"),
    }
    match server_side().heard(Got::Cancelled) {
        RecvStep::Fail(Some((p, to)), TftpError::Cancelled) => assert_eq!((p, to), (word.clone(), at(1))),
        other => panic!("{other:?}"),
    }
    // where nobody has answered yet, the word goes where the request went
    match recv_blocks_deferred(at(9), vec![1], None).heard(Got::Cancelled) {
        RecvStep::Fail(Some((p, to)), TftpError::Cancelled) => assert_eq!((p, to), (word.clone(), at(9))),
        other => panic!("{other:?}"),
    }
    let (q, _) = put_reader(at(69), "a.bin", Mode::Octet, "10.0.0.1");
    match q.heard(Got::Cancelled) {
        PutStep::Fail(Some((p, to)), TftpError::Cancelled) => assert_eq!((p, to), (word.clone(), at(69))),
        other => panic!("{other:?}"),
    }
    let (q, _) = put_reader(at(69), "a.bin", Mode::Octet, "10.0.0.1");
    match q.heard(Got::Packet(at(69), word.clone())) {
        PutStep::Fail(None, e) => assert_eq!(e.message(), "Удалённая сторона отменила передачу"),
        other => panic!("{other:?}"),
    }
    match sending_first(b"x").heard(Got::Packet(at(2), word)) {
        SendStep::Fail(None, e) => assert_eq!(e.message(), "Удалённая сторона отменила передачу"),
        other => panic!("{other:?}"),
    }
}

#[test]
fn failures_of_file_and_socket() {
    match send_blocks().next(ReadBlock::Failed(io(IoKind::Other, "диск"))) {
        SendStep::Fail(Some(p), e) => {
            assert_eq!(p, build_error(0, "File read error"));
            assert_eq!(e.message(), "IO ошибка: диск");
        }
        other => panic!("{other:?}"),
    }
    match sending_first(b"x").heard(Got::Failed(io(IoKind::Other, "сеть"))) {
        SendStep::Fail(None, e) => assert_eq!(e.message(), "IO ошибка: сеть"),
        other => panic!("{other:?}"),
    }
    match server_side().heard(Got::Failed(io(IoKind::Other, "сеть"))) {
        RecvStep::Fail(None, e) => assert_eq!(e.message(), "IO ошибка: сеть"),
        other => panic!("{other:?}"),
    }
    match server_side().heard(Got::Packet(at(1), build_data(1, b"abc"))) {
        RecvStep::Store(p) => {
            let (reply, to, e) = p.store_failed(io(IoKind::Other, "нет места"));
            assert_eq!(reply, build_error(3, "Disk full or write error"));
            assert_eq!(to, at(1));
            assert_eq!(e.message(), "IO ошибка: нет места");
        }
        other => panic!("{other:?}"),
    }
}

#[test]
fn receiver_is_strict() {
    match server_side().heard(Got::Packet(at(1), build_data(1, &[0; 513]))) {
        RecvStep::Fail(Some((p, to)), TftpError::Protocol(m)) => {
            assert_eq!(p, build_error(4, "Data block larger than 512 bytes"));
            assert_eq!(to, at(1));
            assert_eq!(m, "блок данных больше 512 байт");
        }
        other => panic!("{other:?}"),
    }
    // too short to be anything
    assert!(matches!(server_side().heard(Got::Packet(at(1), vec![0, 3, 0])), RecvStep::Wait(_)));
    // an ACK has no place here
    match server_side().heard(Got::Packet(at(1), vec![0, 4, 0, 1])) {
        RecvStep::Fail(Some((p, _)), _) => assert_eq!(&p[..4], &[0, 5, 0, 4]),
        other => panic!("{other:?}"),
    }
    // before the other side is known, such packets and wrong blocks are let go
    let r = recv_blocks_deferred(at(9), vec![1], None);
    let r = match r.heard(Got::Packet(at(5), vec![0, 4, 0, 1])) {
        RecvStep::Wait(r) => r,
        other => panic!("{other:?}"),
    };
    let r = match r.heard(Got::Packet(at(5), build_data(2, b"x"))) {
        RecvStep::Wait(r) => r,
        other => panic!("{other:?}"),
    };
    assert_eq!(r.peer, None);
    // the first block makes it known; a repeated one is acknowledged again
    let r = match r.heard(Got::Packet(at(6), build_data(1, &[7; 512]))) {
        RecvStep::Store(p) => match p.stored() {
            StoreStep::Ack(r, to) => {
                assert_eq!(to, at(6));
                r
            }
            other => panic!("{other:?}"),
        },
        other => panic!("{other:?}"),
    };
    assert_eq!((r.peer, r.total, r.expected), (Some(at(6)), 512, 2));
    match r.heard(Got::Packet(at(6), build_data(1, &[7; 512]))) {
        RecvStep::Reply(r, p, to) => {
            assert_eq!((p, to), (vec![0, 4, 0, 1], at(6)));
            assert!(matches!(r.heard(Got::Packet(at(6), build_data(9, b""))), RecvStep::Wait(_)));
        }
        other => panic!("{other:?}"),
    }
    match server_side().heard(Got::Packet(at(1), build_error(2, "Access violation"))) {
        RecvStep::Fail(None, e) => {
            assert_eq!(e.message(), "Удалённая сторона вернула ошибку 2: Access violation")
        }
        other => panic!("{other:?}"),
    }
}

#[test]
fn a_write_request_is_granted_by_ack_zero_only() {
    let start = || put_reader(at(69), "a.bin", Mode::Netascii, "::1").0;
    assert_eq!(start().wrq, build_rq(OP_WRQ, "a.bin", Mode::Netascii));
    assert!(matches!(start().heard(Got::Packet(at(5), vec![0, 4, 0, 0])), PutStep::Granted(p) if p == at(5)));
    assert!(matches!(start().heard(Got::Packet(at(5), vec![0, 4, 0, 1])), PutStep::Wait(_)));
    assert!(matches!(start().heard(Got::Packet(at(5), vec![0, 4])), PutStep::Wait(_)));
    assert!(matches!(start().heard(Got::Packet(at(5), vec![0, 3, 0, 0])), PutStep::Wait(_)));
    assert!(matches!(
        start().heard(Got::Cancelled),
        PutStep::Fail(Some((_, to)), TftpError::Cancelled) if to == at(69)
    ));
    match start().heard(Got::Packet(at(5), vec![0, 6, 0, 0])) {
        PutStep::Fail(Some((p, to)), _) => {
            assert_eq!(p, build_error(8, "Options were not requested"));
            assert_eq!(to, at(5));
        }
        other => panic!("{other:?}"),
    }
    match start().heard(Got::Packet(at(5), build_error(2, "no"))) {
        PutStep::Fail(None, TftpError::Remote(2, m)) => assert_eq!(m, "no"),
        other => panic!("{other:?}"),
    }
    assert!(matches!(
        start().heard(Got::Failed(io(IoKind::Other, "x"))),
        PutStep::Fail(None, TftpError::Io(_))
    ));
    assert_eq!(granted_line("10.0.0.2"), "  запрос принят, сервер отвечает с 10.0.0.2");
}

#[test]
fn planning_to_put_and_get() {
    let p = put_file(Ok(Some(10))).unwrap();
    assert_eq!((p.mode, p.total), (Mode::Octet, Some(10)));
    let p = put_file_mode(Ok(Some(10)), Mode::Netascii).unwrap();
    assert_eq!((p.mode, p.total), (Mode::Netascii, None));
    let e = put_file(Err(io(IoKind::NotFound, "нет файла"))).unwrap_err();
    assert_eq!(e.message(), "IO ошибка: нет файла");

    let (r, line) = get_file_mode(at(69), "10.0.0.1", "a.txt", Mode::Netascii);
    assert_eq!(line, "→ RRQ a.txt с 10.0.0.1");
    assert_eq!(r.last, build_rq(OP_RRQ, "a.txt", Mode::Netascii));
    assert_eq!(r.target(), at(69));
    assert_eq!(fetch_bytes(at(69), "tftp:result").last, build_rq(OP_RRQ, "tftp:result", Mode::Octet));

    assert_eq!(part_path("/x/a.bin"), "/x/a.bin.part");
    assert!(matches!(get_ended(Ok(())), GetEnd::Rename));
    assert!(matches!(get_ended(Err(TftpError::Timeout)), GetEnd::Discard(TftpError::Timeout)));
    assert_eq!(get_renamed(Ok(())).unwrap(), "✓ Приём завершён");
    assert!(matches!(get_renamed(Err(io(IoKind::Other, "x"))), Err(TftpError::Io(_))));
}

#[test]
fn addresses() {
    let v6 = Endpoint { ip: Ip::V6(1), port: 69, flow: 0, scope: 0 };
    assert_eq!(resolve(Ok(vec![v6, at(1), at(2)])).unwrap(), at(1));
    assert_eq!(resolve(Ok(vec![v6])).unwrap(), v6);
    assert_eq!(resolve(Ok(vec![])).unwrap_err().message(), "Ошибка протокола: не удалось разрешить адрес");
    assert_eq!(resolve(Err(io(IoKind::Other, "dns"))).unwrap_err().message(), "IO ошибка: dns");
    assert_eq!(bind_for(&v6), "[::]:0");
    assert_eq!(bind_for(&at(1)), "0.0.0.0:0");
    assert_eq!(lookup_name(" host \n"), "host");
    let lan = Ip::V4(0xc0a8_0001);
    assert_eq!(data_socket(Ip::V4(0), Some(lan)), vec![lan, Ip::V4(0)]);
    assert_eq!(data_socket(Ip::V4(0), Some(Ip::V6(0))), vec![Ip::V4(0)]);
    assert_eq!(data_socket(Ip::V6(0), None), vec![Ip::V6(0)]);
    assert_eq!(data_socket(lan, Some(Ip::V4(9))), vec![lan]);
}

#[test]
fn waiting_in_stretches() {
    assert_eq!(poll_wait(true, 0, 100), Poll::Cancelled);
    assert_eq!(poll_wait(false, 100, 100), Poll::Expired);
    assert_eq!(poll_wait(false, 0, 3_000_000_000), Poll::Read(100_000_000));
    assert_eq!(poll_wait(false, 0, 50_000_000), Poll::Read(50_000_000));
    assert_eq!(poll_wait(false, 99, 100), Poll::Read(1_000_000));
}

#[test]
fn a_buffer_is_filled_however_little_comes() {
    assert!(matches!(read_full(0, 512, Ok(100)), Filled::More(100)));
    assert!(matches!(read_full(100, 512, Ok(412)), Filled::End(512)));
    assert!(matches!(read_full(100, 512, Ok(0)), Filled::End(100)));
    assert!(matches!(read_full(100, 512, Err(io(IoKind::Interrupted, ""))), Filled::More(100)));
    assert!(matches!(read_full(100, 512, Err(io(IoKind::Other, "x"))), Filled::Fail(_)));
}
