use tftp_rs::discover::{
    answer_again, answer_wait, discover, hello, host_name, is_answer, is_question, local_ips, meet,
    peer_has_extension, question_targets, sort_devices, Interface, ProbeEvent, ProbeStep,
};
use tftp_rs::error::TftpError;
use tftp_rs::packet::{build_error, build_rq, Mode, OP_RRQ, OP_WRQ};
use tftp_rs::peer::{Endpoint, Ip};
use tftp_rs::server::{
    client_line, listen_failed, run_server, serve_rrq, serve_wrq, wrq_stored, Serve, Source, Target, STOPPED_LINE,
};
use tftp_rs::transfer::Received;
use tftp_rs::wait::{IoFailure, IoKind};

fn at(port: u16) -> Endpoint {
    Endpoint { ip: Ip::V4(0x0a00_0001), port, flow: 0, scope: 0 }
}

#[test]
fn a_request_starts_one_transfer() {
    let (mut s, line) = run_server(" 0.0.0.0 ", "/srv");
    assert_eq!(line, "Сервер слушает 0.0.0.0, каталог: /srv");
    let rq = build_rq(OP_WRQ, "a.bin", Mode::Octet);
    match s.heard(at(1), "10.0.0.1", &rq) {
        Serve::Start { read, name, mode, line } => {
            assert_eq!((read, name.as_str(), mode), (false, "a.bin", Mode::Octet));
            assert_eq!(line, "[10.0.0.1] WRQ a.bin");
        }
        other => panic!("{other:?}"),
    }
    assert!(matches!(s.heard(at(1), "10.0.0.1", &rq), Serve::Ignore));
    assert!(matches!(s.heard(at(2), "10.0.0.1", &rq), Serve::Start { .. }));
    assert!(matches!(
        s.heard(at(1), "10.0.0.1", &build_rq(OP_RRQ, "b.bin", Mode::Netascii)),
        Serve::Start { read: true, mode: Mode::Netascii, .. }
    ));
    assert_eq!(s.ended(at(1), "10.0.0.1", false, "a.bin", Ok(5)), "[10.0.0.1] WRQ a.bin: готово, 5 байт");
    assert!(matches!(s.heard(at(1), "10.0.0.1", &rq), Serve::Start { .. }));
    assert!(matches!(s.heard(at(2), "10.0.0.1", &rq), Serve::Ignore));
    assert_eq!(
        s.ended(at(1), "10.0.0.1", true, "b.bin", Err(TftpError::Timeout)),
        "[10.0.0.1] RRQ b.bin: Таймаут: удалённая сторона не отвечает"
    );
    assert_eq!(STOPPED_LINE, "Сервер остановлен");
    assert_eq!(client_line("10.0.0.1:5", "x"), "[10.0.0.1:5] x");
}

#[test]
fn what_the_server_refuses_and_ignores() {
    let (mut s, _) = run_server("x", "/");
    match s.heard(at(1), "ip", b"\0\x01a") {
        Serve::Refuse(p, None) => assert_eq!(p, build_error(4, "Malformed request")),
        other => panic!("{other:?}"),
    }
    match s.heard(at(1), "ip", b"\0\x01a\0Mail\0") {
        Serve::Refuse(p, Some(line)) => {
            assert_eq!(p, build_error(4, "Mail mode is obsolete and not supported"));
            assert_eq!(line, "[ip] RRQ a: режим «mail» не поддерживается");
        }
        other => panic!("{other:?}"),
    }
    for p in [&b""[..], b"\0", b"TFTP-DISCOVER", b"\0\x03\0\x01", b"\0\x05\0\0"] {
        assert!(matches!(s.heard(at(1), "ip", p), Serve::Ignore));
    }
    assert!(listen_failed(IoFailure { kind: IoKind::TimedOut, text: "x".into() }).is_none());
    let e = listen_failed(IoFailure { kind: IoKind::Other, text: "x".into() }).unwrap();
    assert_eq!(e.message(), "IO ошибка: x");
}

#[test]
fn reading_and_writing_files() {
    let (p, e) = serve_rrq(Source::Missing, Mode::Octet).unwrap_err();
    assert_eq!(p, build_error(1, "File not found"));
    assert_eq!(e.message(), "Ошибка протокола: файл не найден");
    let (p, e) = serve_rrq(Source::Closed, Mode::Octet).unwrap_err();
    assert_eq!(p, build_error(2, "Access violation"));
    assert_eq!(e.message(), "Ошибка протокола: нет доступа к файлу");
    assert_eq!(serve_rrq(Source::Open(Some(7)), Mode::Octet).unwrap(), Some(7));
    assert_eq!(serve_rrq(Source::Open(Some(7)), Mode::Netascii).unwrap(), None);

    let (p, e) = serve_wrq(Target::Forbidden, at(1)).unwrap_err();
    assert_eq!(p, build_error(2, "Access violation"));
    assert_eq!(e.message(), "Ошибка протокола: недопустимое имя файла");
    let (_, e) = serve_wrq(Target::Closed, at(1)).unwrap_err();
    assert_eq!(e.message(), "Ошибка протокола: не удалось создать файл");
    let r = serve_wrq(Target::Open, at(1)).unwrap();
    assert_eq!((r.last.clone(), r.target()), (vec![0, 4, 0, 0], at(1)));

    let rx = Received { total: 9, last_block: 3, peer: at(1) };
    let (p, r) = wrq_stored(rx, Ok(()));
    assert_eq!((p, r.unwrap()), (vec![0, 4, 0, 3], 9));
    let (p, r) = wrq_stored(rx, Err(IoFailure { kind: IoKind::Other, text: "диск".into() }));
    assert_eq!(p, build_error(0, "Cannot store file"));
    assert_eq!(r.unwrap_err().message(), "IO ошибка: диск");
}

#[test]
fn devices_are_found_once_and_sorted() {
    assert!(is_question(b"TFTP-DISCOVER!") && !is_question(b"TFTP-HERE"));
    assert!(is_answer(&hello("дом")) && !is_answer(b"TFTP-HER"));
    let mut v = Vec::new();
    discover(&mut v, Ip::V4(9), "0.0.0.9", " TFTP-HEREx".as_bytes());
    assert!(v.is_empty());
    discover(&mut v, Ip::V4(9), "0.0.0.9", "TFTP-HERE b \n".as_bytes());
    discover(&mut v, Ip::V4(9), "0.0.0.9", "TFTP-HEREдругой".as_bytes());
    discover(&mut v, Ip::V4(10), "0.0.0.10", b"TFTP-HERE");
    meet(&mut v, Ip::V4(1), "0.0.0.1", " дом ");
    let s = sort_devices(&v);
    let shown: Vec<(&str, &str)> = s.iter().map(|d| (d.address.as_str(), d.name.as_str())).collect();
    assert_eq!(shown, [("0.0.0.1", "дом"), ("0.0.0.10", ""), ("0.0.0.9", "b")]);
}

#[test]
fn interfaces() {
    let i = |name: &str, ip: Ip, loopback: bool, broadcast: Option<u32>| Interface {
        name: name.to_string(),
        ip,
        loopback,
        broadcast,
    };
    let v = vec![
        i("lo", Ip::V4(0x7f00_0001), true, Some(1)),
        i("eth0", Ip::V4(5), false, Some(255)),
        i("eth0", Ip::V6(5), false, None),
        i("eth1", Ip::V4(6), false, None),
    ];
    assert_eq!(local_ips(&v), [("eth0".to_string(), Ip::V4(5)), ("eth1".to_string(), Ip::V4(6))]);
    assert_eq!(question_targets(&v), [0x7f00_0001, 0xffff_ffff, 255]);
    let s = |t: &str| Some(t.to_string());
    assert_eq!(host_name(s(" a "), s("b"), s("c")), "a");
    assert_eq!(host_name(None, s("b"), s("c")), "b");
    assert_eq!(host_name(None, None, s("c\n")), "c");
    assert_eq!(host_name(None, None, None), "");
}

#[test]
fn asking_whether_it_is_this_program() {
    assert_eq!(peer_has_extension(1, ProbeEvent::NotSent), ProbeStep::Known(false));
    assert_eq!(peer_has_extension(1, ProbeEvent::Packet(hello(""))), ProbeStep::Known(true));
    assert_eq!(peer_has_extension(1, ProbeEvent::Packet(vec![0, 5, 0, 4])), ProbeStep::Known(false));
    assert_eq!(peer_has_extension(1, ProbeEvent::Expired), ProbeStep::Ask(2));
    assert_eq!(peer_has_extension(2, ProbeEvent::Failed(IoKind::TimedOut)), ProbeStep::Ask(3));
    assert_eq!(peer_has_extension(3, ProbeEvent::Expired), ProbeStep::Known(false));
    assert_eq!(peer_has_extension(3, ProbeEvent::Failed(IoKind::WouldBlock)), ProbeStep::Known(false));
    assert_eq!(peer_has_extension(3, ProbeEvent::Failed(IoKind::Interrupted)), ProbeStep::Wait);
    assert_eq!(answer_wait(5, 5), None);
    assert_eq!(answer_wait(0, 5_000_000), Some(5_000_000));
    assert_eq!(answer_wait(0, 5), Some(1_000_000));
    assert!(answer_again(IoKind::ConnectionReset) && !answer_again(IoKind::TimedOut));
}
