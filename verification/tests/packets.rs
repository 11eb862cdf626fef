use tftp_rs::error::{io_with_path, TftpError};
use tftp_rs::packet::{
    accept_mode, build_ack, build_data, build_error, build_rq, opcode_of, parse_error, parse_rq,
    reject_opcode, split_rq, Mode, OP_RRQ, OP_WRQ,
};
use tftp_rs::peer::{Endpoint, Ip};
use tftp_rs::server::{run_server, serve_rrq, Serve, Source};
use tftp_rs::text;
use tftp_rs::transfer::{send_blocks, ReadBlock, SendStep};

#[test]
fn packets_on_the_wire() {
    assert_eq!(build_rq(OP_WRQ, "я.txt", Mode::Octet), [&[0, 2][..], "я.txt\0octet\0".as_bytes()].concat());
    assert_eq!(build_ack(0x1234), [0, 4, 0x12, 0x34]);
    assert_eq!(build_data(65535, b"ab"), vec![0, 3, 255, 255, b'a', b'b']);
    assert_eq!(build_error(4, "x"), vec![0, 5, 0, 4, b'x', 0]);
    assert_eq!(opcode_of(&[1, 2, 3]), 0x0102);
}

#[test]
fn requests_are_read_back() {
    let rq = build_rq(OP_RRQ, "каталог/файл.bin", Mode::Netascii);
    assert_eq!(parse_rq(&rq), Some(("каталог/файл.bin".to_string(), "netascii".to_string())));
    // a missing zero behind the mode is forgiven, one behind the name is not
    assert_eq!(parse_rq(b"\0\x01a\0OCTET"), Some(("a".to_string(), "octet".to_string())));
    assert_eq!(parse_rq(b"\0\x01a"), None);
    assert_eq!(parse_rq(b"\0\x01a\0\0"), None);
    assert_eq!(parse_rq(b"\0\x01a\0"), None);
    assert_eq!(parse_rq(b"\0"), None);
    assert_eq!(split_rq(b"\0\x01\xff\0m\0"), Some((vec![0xff], b"m".to_vec())));
    // bytes that are no text are replaced, not refused
    assert_eq!(parse_rq(b"\0\x01\xff\0octet\0").unwrap().0, "\u{fffd}");
    // lower case beyond ASCII
    assert_eq!(parse_rq("\0\x01a\0ПОЧТА\0".as_bytes()).unwrap().1, "почта");
}

#[test]
fn mode_is_case_insensitive_and_options_are_ignored() {
    let mut rq = vec![0, OP_RRQ as u8];
    rq.extend_from_slice(b"a.bin\0OcTeT\0blksize\01428\0tsize\00\0");
    let (name, mode) = parse_rq(&rq).unwrap();
    assert_eq!(name, "a.bin");
    assert_eq!(accept_mode(&mode).unwrap(), Mode::Octet);
    // the server answers with an ordinary first block
    let client = Endpoint { ip: Ip::V4(0x7f00_0001), port: 5, flow: 0, scope: 0 };
    let (mut srv, _) = run_server("127.0.0.1", "/d");
    let mode = match srv.heard(client, "127.0.0.1", &rq) {
        Serve::Start { read: true, name, mode, .. } => {
            assert_eq!(name, "a.bin");
            mode
        }
        other => panic!("{other:?}"),
    };
    let data = vec![7u8; 1500];
    assert_eq!(serve_rrq(Source::Open(Some(1500)), mode).unwrap(), Some(1500));
    match send_blocks().next(ReadBlock::Bytes(data[..512].to_vec())) {
        SendStep::Transmit(s) => {
            assert_eq!(&s.packet[..4], &[0, 3, 0, 1], "ожидался DATA 1, а не OACK");
            assert_eq!(s.packet.len(), 4 + 512);
        }
        other => panic!("{other:?}"),
    }
    assert_eq!(Mode::parse("NETascii"), Some(Mode::Netascii));
    assert_eq!(Mode::Netascii.as_str(), "netascii");
}

#[test]
fn mail_and_unknown_modes_get_error_4() {
    for mode in ["mail", "bogus"] {
        let mut rq = vec![0, OP_WRQ as u8];
        rq.extend_from_slice(b"x.txt\0");
        rq.extend_from_slice(mode.as_bytes());
        rq.push(0);
        let (_, m) = parse_rq(&rq).unwrap();
        let pkt = accept_mode(&m).unwrap_err();
        assert_eq!(&pkt[..4], &[0, 5, 0, 4], "режим {mode}: ожидалась ERROR 4");
    }
    assert_eq!(accept_mode("MAIL").unwrap_err(), build_error(4, "Mail mode is obsolete and not supported"));
    assert_eq!(
        accept_mode("x").unwrap_err(),
        build_error(4, "Unknown transfer mode (supported: octet, netascii)")
    );
}

#[test]
fn errors_are_read_back() {
    match parse_error(&build_error(7, "привет")) {
        TftpError::Remote(7, m) => assert_eq!(m, "привет"),
        other => panic!("{other:?}"),
    }
    match parse_error(&[0, 5, 1, 2, 0xff, b'a']) {
        TftpError::Remote(0x0102, m) => assert_eq!(m, "\u{fffd}a"),
        other => panic!("{other:?}"),
    }
    match parse_error(&[0, 5, 0]) {
        TftpError::Protocol(m) => assert_eq!(m, "короткий ERROR-пакет"),
        other => panic!("{other:?}"),
    }
}

#[test]
fn refused_operations() {
    let (p, e) = reject_opcode(6);
    assert_eq!(p, build_error(8, "Options were not requested"));
    assert_eq!(e.message(), "Ошибка протокола: получен пакет с недопустимым кодом операции 6");
    assert_eq!(reject_opcode(9).0, build_error(4, "Illegal TFTP operation"));
}

#[test]
fn descriptions_of_failures() {
    assert_eq!(TftpError::Io("x".into()).message(), "IO ошибка: x");
    assert_eq!(TftpError::Protocol("x".into()).message(), "Ошибка протокола: x");
    assert_eq!(TftpError::Remote(0, "Transfer cancelled".into()).message(), "Удалённая сторона отменила передачу");
    assert_eq!(TftpError::Remote(0, "x".into()).message(), "Удалённая сторона вернула ошибку 0: x");
    assert_eq!(
        TftpError::Remote(5, "Transfer cancelled".into()).message(),
        "Удалённая сторона вернула ошибку 5: Transfer cancelled"
    );
    assert_eq!(TftpError::Timeout.message(), "Таймаут: удалённая сторона не отвечает");
    assert_eq!(TftpError::Cancelled.message(), "Передача остановлена");
    assert_eq!(io_with_path("нет доступа", "/x").message(), "IO ошибка: /x: нет доступа");
}

#[test]
fn white_space_is_what_the_standard_library_says() {
    for n in 0..=0x10ffffu32 {
        if let Some(c) = char::from_u32(n) {
            assert_eq!(text::white(c), c.is_whitespace(), "{n:x}");
        }
    }
}

#[test]
fn text_helpers_agree_with_the_standard_library() {
    let samples = [
        "", "\n", "a", "a\n", "a\r\nb", "a\rb\r", "\r\n\r\n", "x\n\ny", " a b ", "\u{2003}я\u{a0}", "a\r", "\ra\n",
    ];
    for s in samples {
        assert_eq!(text::split_lines(s), s.lines().collect::<Vec<_>>(), "{s:?}");
        assert_eq!(text::trim_text(s), s.trim());
        for t in samples {
            assert_eq!(text::text_occurs(s, t), s.contains(t));
            assert_eq!(text::text_begins(s, t), s.starts_with(t));
            assert_eq!(text::same_text(s, t), s == t);
        }
        for n in 0..6 {
            assert_eq!(text::head_text(s, n), s.get(..n).unwrap_or(s));
        }
    }
    for s in ["0", "7", "+7", "007", "18446744073709551615", "18446744073709551616", "", "+", "-1", " 1", "1 ", "٣", "99999999999999999999999"] {
        let v: Vec<char> = s.chars().collect();
        assert_eq!(text::parse_number(&v, u64::MAX), s.parse::<u64>().ok(), "{s}");
        assert_eq!(text::parse_number(&v, 65535).map(|n| n as u16), s.parse::<u16>().ok(), "{s}");
    }
    for n in [0, 9, 10, 12345, u64::MAX] {
        assert_eq!(text::dec_text(n), n.to_string());
    }
}
