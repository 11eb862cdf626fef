use tftp_rs::error::TftpError;
use tftp_rs::folder::Named;
use tftp_rs::packet::{ack_vec, build_error, build_rq, Mode, OP_RRQ, OP_WRQ};
use tftp_rs::peer::{Endpoint, Ip};
use tftp_rs::receive::{
    create_failed, incoming_line, incoming_refused, listen_failed, receive_loop, socket_line, Delivery, Ended,
    InPlace, ReceiveLoop, Request, Settled, Stored, COMPLETE_LINE,
};
use tftp_rs::send::{
    read_failed, send_path, send_paths, Chosen, NextRequest, PathItem, Plan, Prepare, PrepareStep, Sending,
    PLAIN_LINE,
};
use tftp_rs::session::{
    judge, parse_manifest, push_list_line, read_manifest, short, Hashing, LimitedBuf, MANIFEST_NAME, RESULT_NAME,
};
use tftp_rs::transfer::{recv_blocks_deferred, send_blocks, ReadBlock, Received, RecvStep, SendStep, StoreStep};
use tftp_rs::wait::{Got, IoFailure, IoKind};

fn at(ip: u32, port: u16) -> Endpoint {
    Endpoint { ip: Ip::V4(ip), port, flow: 0, scope: 0 }
}

fn io(kind: IoKind, text: &str) -> IoFailure {
    IoFailure { kind, text: text.to_string() }
}

fn pattern(n: usize) -> Vec<u8> {
    (0..n).map(|i| (i * 31 % 251) as u8).collect()
}

fn item(id: u64, shown: &str) -> PathItem {
    PathItem { id, shown: shown.to_string(), name: shown.rsplit('/').next().map(|s| s.to_string()) }
}

/// The hash by hand: name, zero, contents, size in eight bytes.
fn blake3_of(files: &[(&str, &[u8])]) -> String {
    let mut h = blake3::Hasher::new();
    for (name, data) in files {
        h.update(name.as_bytes());
        h.update(&[0]);
        h.update(data);
        h.update(&(data.len() as u64).to_be_bytes());
    }
    h.finalize().to_hex().to_string()
}

fn prepare(mut plan: Plan, looks: Vec<Chosen>, verify: bool) -> (Prepare, String) {
    for there in looks {
        let p = plan.next_path().unwrap();
        plan.look(&p, there).unwrap();
    }
    assert!(plan.next_path().is_none());
    plan.finish().unwrap().probed(verify, false).unwrap()
}

/// Reads all files from memory, where their numbers say.
fn read_all(mut p: Prepare, data: &[Vec<u8>]) -> Prepare {
    loop {
        match p.next(false) {
            PrepareStep::Done(d) => return d,
            PrepareStep::Open(o) => {
                let bytes = &data[o.path() as usize];
                if o.must_read() {
                    let mut r = o.read();
                    for c in bytes.chunks(300) {
                        r.chunk(c);
                    }
                    p = r.finish();
                } else {
                    p = o.sized(Ok(bytes.len() as u64), "x").unwrap();
                }
            }
            PrepareStep::Fail(e) => panic!("{e:?}"),
        }
    }
}

fn done(total: u64) -> Received {
    Received { total, last_block: 1, peer: at(1, 9) }
}

/// The file gets its name; only then is its last block acknowledged.
fn in_place(s: Settled, shown: &str) -> InPlace {
    match s.stored(Ok(()), shown) {
        Stored::Ack(p, ack) => {
            assert_eq!(ack, ack_vec(p.received().last_block));
            p
        }
        Stored::Refuse(..) => panic!("refused"),
    }
}

/// The list goes ahead of all files.
fn list_away(s: Sending) -> (Sending, Vec<u8>) {
    match s.next_request() {
        NextRequest::List(name, mode, bytes) => {
            assert_eq!((name.as_str(), mode), (MANIFEST_NAME, Mode::Octet));
            (s.written(Ok(())).unwrap(), bytes)
        }
        other => panic!("{other:?}"),
    }
}

/// Takes a file in whole. The loop, and the log lines.
fn take_file(l: ReceiveLoop, from: Endpoint, name: &str, mode: Mode, data: &[u8], now: u64) -> (ReceiveLoop, Vec<String>) {
    let (mut f, line) = l.start_file(from, name.to_string(), mode);
    let mut lines = vec![line];
    for c in data.chunks(512) {
        f.write(c);
    }
    match f.ended(Ok(done(data.len() as u64))) {
        Ended::Keep(s) => {
            let shown = format!("/d/{name}");
            let (l, more) = in_place(s, &shown).kept(now, 7, &shown, Ok(()));
            lines.extend(more);
            (l, lines)
        }
        Ended::Drop(..) => panic!("dropped"),
    }
}

fn ask_result(l: &ReceiveLoop, now: u64, from: Endpoint) -> Vec<u8> {
    match l.heard(now, from, "ip", &build_rq(OP_RRQ, RESULT_NAME, Mode::Octet)) {
        Request::Result(b) => b,
        other => panic!("{other:?}"),
    }
}

#[test]
fn send_path_to_our_receiver_verifies() {
    let data = vec![pattern(1300), pattern(512), Vec::new()];
    let found = vec![
        Named { id: 0, name: "proj/a.bin".into() },
        Named { id: 2, name: "proj/sub/.hidden".into() },
        Named { id: 1, name: "proj/sub/b.bin".into() },
    ];
    let (p, line) = prepare(send_path(item(9, "/t/proj")), vec![Chosen::Folder(found, vec![])], true);
    assert_eq!(line, "Считаю общую контрольную сумму (файлов: 3)…");
    let prepared = read_all(p, &data).finish();
    let sending = prepared.next.unwrap();
    let hash = blake3_of(&[
        ("proj/a.bin", &data[0]),
        ("proj/sub/.hidden", &data[2]),
        ("proj/sub/b.bin", &data[1]),
    ]);
    assert_eq!(
        prepared.lines,
        vec![
            format!("Общая контрольная сумма: {}…", &hash[..16]),
            "→ отправляю контрольную сумму получателю".to_string()
        ]
    );
    let (mut sending, list) = list_away(sending);
    assert_eq!(
        String::from_utf8(list.clone()).unwrap(),
        format!("{hash}\n1300 proj/a.bin\n0 proj/sub/.hidden\n512 proj/sub/b.bin\n")
    );

    let tx = at(0x0a000001, 4000);
    let (mut rx, line) = receive_loop("компьютер", "/d");
    assert_eq!(line, "Приём запущен, папка: /d");
    let line = rx.manifest_received(1, tx, Ok(list)).unwrap();
    assert_eq!(line, format!("← получена общая контрольная сумма ({}…), файлов: 3", &hash[..8]));

    let mut port = 4001;
    while let NextRequest::File(id, name, mode, line) = sending.next_request() {
        assert_eq!(mode, Mode::Octet);
        assert!(line.unwrap().ends_with(&format!("/3] {name}")));
        let (l, lines) = take_file(rx, at(0x0a000001, port), &name, Mode::Octet, &data[id as usize], 2);
        assert_eq!(lines[0], "  общий размер известен из списка отправителя: 1812 байт");
        assert!(lines[1].starts_with(&format!("✓ {name}: ")) && !lines[1].contains("не проверялась"));
        rx = l;
        port += 1;
        sending = sending.written(Ok(())).unwrap();
        if !matches!(sending.next_request(), NextRequest::File(..)) {
            assert_eq!(lines.last().unwrap(), "✓ Общая контрольная сумма совпала (файлов: 3)");
        } else {
            assert_eq!(lines.len(), 2);
        }
    }
    match sending.next_request() {
        NextRequest::Outcome(name, line) => {
            assert_eq!(name, RESULT_NAME);
            assert_eq!(line, "→ жду от получателя результат проверки…");
        }
        other => panic!("{other:?}"),
    }
    let body = ask_result(&rx, 3, at(0x0a000001, 5000));
    assert_eq!(body, b"OK\n3\n");
    let (line, ends) = rx.result_sent(3, at(0x0a000001, 5000), Delivery::Sent);
    assert_eq!((line, ends), (None, true));
    assert_eq!(COMPLETE_LINE, "✓ Всё принято и проверено, приём завершён");
    assert_eq!(
        sending.result_read(Ok(body)).unwrap(),
        "✓ Контрольная сумма совпала, отправлено файлов: 3"
    );
}

#[test]
fn send_path_to_plain_server_is_pure_rfc1350() {
    let (p, line) = prepare(send_path(item(0, "/t/hello.txt")), vec![Chosen::File], false);
    assert_eq!(line, PLAIN_LINE);
    assert!(line.contains("обычный TFTP-сервер"));
    let prepared = read_all(p, &[b"hello world".to_vec()]).finish();
    assert!(prepared.lines.is_empty());
    let s = prepared.next.unwrap();
    match s.next_request() {
        NextRequest::File(0, name, Mode::Octet, None) => assert_eq!(name, "hello.txt"),
        other => panic!("{other:?}"),
    }
    assert_eq!(s.progress(5), (5, Some(11)));
    let s = s.written(Ok(())).unwrap();
    match s.next_request() {
        NextRequest::Done(line) => assert_eq!(line, "✓ Отправлено файлов: 1; целостность не проверялась"),
        other => panic!("{other:?}"),
    }
}

#[test]
fn send_paths_several_files_and_folders_in_one_session() {
    let data = vec![pattern(1300), b"hello".to_vec(), pattern(2000)];
    let plan = send_paths(vec![item(0, "/t/x.bin"), item(9, "/t/docs"), item(1, "/t/y.txt")]);
    let looks = vec![
        Chosen::File,
        Chosen::Folder(vec![Named { id: 2, name: "docs/in/z.bin".into() }], vec!["/t/docs/secret (нет)".into()]),
        Chosen::File,
    ];
    let (p, _) = prepare(plan, looks, true);
    let prepared = read_all(p, &data).finish();
    assert_eq!(prepared.lines[0], "Пропущено (нет доступа): /t/docs/secret (нет)");
    let (mut s, _) = list_away(prepared.next.unwrap());
    let mut names = Vec::new();
    let mut at = Vec::new();
    while let NextRequest::File(id, name, _, line) = s.next_request() {
        assert_eq!(line.unwrap(), format!("[{}/3] {name}", names.len() + 1));
        at.push(s.progress(0).0);
        at.push(s.progress(data[id as usize].len() as u64).0);
        assert_eq!(s.progress(1).1, Some(3305));
        names.push(name);
        s = s.written(Ok(())).unwrap();
    }
    assert!(matches!(s.next_request(), NextRequest::Outcome(..)));
    assert_eq!(names, ["x.bin", "docs/in/z.bin", "y.txt"]);
    assert_eq!(at, [0, 1300, 1300, 3300, 3300, 3305]);
    assert_eq!(
        s.result_read(Ok(b"OK\n3\n".to_vec())).unwrap(),
        "✓ Контрольная сумма совпала, отправлено файлов: 3 (пропущено без доступа: 1)"
    );
}

#[test]
fn send_paths_rejects_duplicate_names() {
    let mut plan = send_paths(vec![item(0, "/p1/a.bin"), item(1, "/p2/a.bin")]);
    for _ in 0..2 {
        let p = plan.next_path().unwrap();
        plan.look(&p, Chosen::File).unwrap();
    }
    let e = plan.finish().unwrap_err();
    assert!(e.message().contains("одно имя"), "{e:?}");
    assert_eq!(
        e.message(),
        "Ошибка протокола: два выбранных файла получили бы одно имя «a.bin» — отправьте их по отдельности"
    );
}

#[test]
fn there_must_be_something_to_send() {
    let mut plan = send_path(item(0, "/no"));
    let p = plan.next_path().unwrap();
    let e = plan.look(&p, Chosen::Missing).unwrap_err();
    assert_eq!(e.message(), "Ошибка протокола: путь не существует: /no");

    let mut plan = send_path(item(0, "/empty"));
    let p = plan.next_path().unwrap();
    plan.look(&p, Chosen::Folder(vec![], vec![])).unwrap();
    assert_eq!(
        plan.finish().unwrap_err().message(),
        "Ошибка протокола: в выбранном нет файлов для отправки"
    );

    let (p, _) = prepare(send_path(item(0, "/d")), vec![Chosen::Folder(vec![], vec!["/d/x (нет)".into()])], true);
    let prepared = read_all(p, &[]).finish();
    assert_eq!(prepared.lines, ["Пропущено (нет доступа): /d/x (нет)"]);
    match prepared.next {
        Err(e) => assert_eq!(e.message(), "Ошибка протокола: нет файлов, доступных для чтения"),
        Ok(_) => panic!(),
    }

    let mut plan = send_path(PathItem { id: 0, shown: "/".into(), name: None });
    let p = plan.next_path().unwrap();
    plan.look(&p, Chosen::File).unwrap();
    let (p, _) = plan.finish().unwrap().probed(false, false).unwrap();
    let s = read_all(p, &[vec![1]]).finish().next.unwrap();
    assert!(matches!(s.next_request(), NextRequest::File(_, name, _, _) if name == "file.bin"));
}

#[test]
fn what_cannot_be_read() {
    let found = vec![Named { id: 0, name: "d/a".into() }, Named { id: 1, name: "d/b".into() }];
    let (p, _) = prepare(send_path(item(9, "/d")), vec![Chosen::Folder(found, vec![])], true);
    let o = match p.next(false) {
        PrepareStep::Open(o) => o,
        _ => panic!(),
    };
    // in a folder, what may not be read is passed over
    let p = o.failed(&io(IoKind::PermissionDenied, "нет доступа"), "/d/a").unwrap();
    let o = match p.next(false) {
        PrepareStep::Open(o) => o,
        _ => panic!(),
    };
    assert_eq!(o.path(), 1);
    match o.failed(&io(IoKind::Other, "сбой"), "/d/b") {
        Err(e) => assert_eq!(e.message(), "IO ошибка: /d/b: сбой"),
        Ok(_) => panic!(),
    }
    // what was chosen itself must be readable
    let (p, _) = prepare(send_path(item(0, "/d/a")), vec![Chosen::File], false);
    let o = match p.next(false) {
        PrepareStep::Open(o) => o,
        _ => panic!(),
    };
    assert!(o.failed(&io(IoKind::PermissionDenied, "x"), "/d/a").is_err());
    let (p, _) = prepare(send_path(item(0, "/d/a")), vec![Chosen::File], false);
    match p.next(false) {
        PrepareStep::Open(o) => match o.sized(Err(io(IoKind::Other, "y")), "/d/a") {
            Err(e) => assert_eq!(e.message(), "IO ошибка: /d/a: y"),
            Ok(_) => panic!(),
        },
        _ => panic!(),
    }
    assert!(matches!(read_failed(true, &io(IoKind::Other, "x"), "/a"), TftpError::Cancelled));
    assert_eq!(read_failed(false, &io(IoKind::Other, "x"), "/a").message(), "IO ошибка: /a: x");
}

#[test]
fn names_with_line_breaks_cannot_be_listed() {
    let bad = || vec![Chosen::Folder(vec![Named { id: 0, name: "d/a\nb".into() }], vec![])];
    let (p, _) = prepare(send_path(item(9, "/d")), bad(), true);
    match p.next(false) {
        PrepareStep::Fail(e) => {
            assert_eq!(e.message(), "Ошибка протокола: в имени файла перевод строки: \"d/a\\nb\"")
        }
        _ => panic!(),
    }
    // without a list they can be sent
    let (p, _) = prepare(send_path(item(9, "/d")), bad(), false);
    assert!(matches!(p.next(false), PrepareStep::Open(_)));
}

#[test]
fn sending_can_be_stopped_while_preparing() {
    let mut plan = send_path(item(0, "/a"));
    let p = plan.next_path().unwrap();
    plan.look(&p, Chosen::File).unwrap();
    assert!(matches!(plan.finish().unwrap().probed(true, true), Err(TftpError::Cancelled)));
    let (p, _) = prepare(send_path(item(0, "/a")), vec![Chosen::File], true);
    assert!(matches!(p.next(true), PrepareStep::Fail(TftpError::Cancelled)));
}

fn sending_one() -> Sending {
    let (p, _) = prepare(send_path(item(0, "/a")), vec![Chosen::File], true);
    read_all(p, &[vec![1, 2, 3]]).finish().next.unwrap()
}

#[test]
fn a_failed_request_ends_sending() {
    assert!(matches!(sending_one().written(Err(TftpError::Timeout)), Err(TftpError::Timeout)));
    let (s, _) = list_away(sending_one());
    assert!(matches!(s.written(Err(TftpError::Cancelled)), Err(TftpError::Cancelled)));
}

#[test]
fn answers_of_the_other_side() {
    let s = list_away(sending_one()).0.written(Ok(())).unwrap();
    assert_eq!(
        s.result_read(Ok("FAIL\na: размер\nb\n".as_bytes().to_vec())).unwrap_err().message(),
        "Ошибка протокола: проверка у получателя не пройдена: a: размер, b"
    );
    for odd in ["", "ok\n", "OK?", "\nOK"] {
        assert_eq!(
            s.answer(odd).unwrap_err().message(),
            "Ошибка протокола: непонятный ответ получателя о проверке"
        );
    }
    assert!(matches!(s.result_read(Err(TftpError::Cancelled)), Err(TftpError::Cancelled)));
    assert_eq!(
        s.result_read(Err(TftpError::Timeout)).unwrap_err().message(),
        "Ошибка протокола: не удалось получить от получателя результат проверки: Таймаут: удалённая сторона не отвечает"
    );
    assert!(s.result_read(Ok(b"OK".to_vec())).is_ok());
}

#[test]
fn manifests_are_read_back() {
    let hash = blake3_of(&[]);
    let mut t = format!("{}\n", hash.to_uppercase());
    push_list_line(&mut t, 5, "имя с пробелом.txt");
    push_list_line(&mut t, u64::MAX, "b");
    let s = parse_manifest(t.as_bytes()).unwrap();
    assert_eq!(s.expected(), hash);
    assert_eq!(s.file_count(), 2);
    assert!(parse_manifest(format!(" {hash} \r\n1 a\r\n").as_bytes()).is_some());
    for bad in [
        String::new(),
        "\n".to_string(),
        format!("{hash}\n"),
        format!("{hash}\n1\n"),
        format!("{hash}\n1 a\n\n"),
        format!("{hash}\nx a\n"),
        format!("{hash}\n18446744073709551616 a\n"),
        format!("{}\n1 a\n", &hash[1..]),
        format!("{}g\n1 a\n", &hash[1..]),
    ] {
        assert!(parse_manifest(bad.as_bytes()).is_none(), "{bad:?}");
    }
    let lines = vec!["что угодно".to_string(), "1 a".to_string()];
    assert!(read_manifest(&lines, "A".repeat(64)).is_some());
    assert!(read_manifest(&lines, "я".repeat(32)).is_none());
    assert_eq!(short(&hash), &hash[..8]);
    assert_eq!(short("abc"), "abc");
}

#[test]
fn the_hash_is_blake3() {
    let h = Hashing::new();
    assert_eq!(h.hex(), "af1349b9f5f9a1a6a0404dea36dcc9499bcb25c9adc112b7cc9a93cae41f3262");
    let mut f = h.feed_reader("a");
    f.chunk(b"he");
    f.chunk(b"llo");
    let (h, n) = f.finish();
    assert_eq!(n, 5);
    assert_eq!(h.hex(), blake3_of(&[("a", b"hello")]));
}

#[test]
fn verdicts() {
    assert_eq!(judge(&vec![], "ab", "ab"), Ok(()));
    assert_eq!(
        judge(&vec![], "0123456789", "9876543210"),
        Err("контрольная сумма всей передачи не совпала (ожидалась 01234567…, получена 98765432…)".to_string())
    );
    assert_eq!(judge(&vec!["x".into(), "y".into()], "ab", "ab"), Err("x; y".to_string()));
}

fn manifest(files: &[(&str, &[u8])]) -> Vec<u8> {
    let mut t = format!("{}\n", blake3_of(files));
    for (n, d) in files {
        push_list_line(&mut t, d.len() as u64, n);
    }
    t.into_bytes()
}

#[test]
fn damage_and_disorder_are_detected() {
    let tx = at(1, 1);
    let files: &[(&str, &[u8])] = &[("a", b"hello"), ("b", b"world")];
    // the same size, another content
    let (mut l, _) = receive_loop("", "/");
    l.manifest_received(0, tx, Ok(manifest(files))).unwrap();
    let (l, _) = take_file(l, tx, "a", Mode::Octet, b"hellO", 1);
    let (mut l, lines) = take_file(l, tx, "b", Mode::Octet, b"world", 2);
    assert!(lines[2].starts_with("Ошибка: контрольная сумма всей передачи не совпала"));
    assert!(ask_result(&l, 3, tx).starts_with(b"FAIL\n"));
    assert!(!l.result_sent(3, tx, Delivery::Sent).1);

    // another size
    let (mut l, _) = receive_loop("", "/");
    l.manifest_received(0, tx, Ok(manifest(files))).unwrap();
    let (l, lines) = take_file(l, tx, "a", Mode::Octet, b"hell", 1);
    assert_eq!(lines[2], "Ошибка: a: размер не совпал (4 байт вместо 5)");
    let (l, lines) = take_file(l, tx, "b", Mode::Octet, b"world", 2);
    assert_eq!(lines[2], "Ошибка: a: размер не совпал (4 байт вместо 5)");
    assert_eq!(ask_result(&l, 3, tx), "FAIL\na: размер не совпал (4 байт вместо 5)\n".as_bytes());

    // out of order, and not all
    let (mut l, _) = receive_loop("", "/");
    l.manifest_received(0, tx, Ok(manifest(files))).unwrap();
    let (l, lines) = take_file(l, tx, "b", Mode::Octet, b"world", 1);
    assert_eq!(lines[2], "Ошибка: b: получен не в том порядке (ожидался a)");
    assert_eq!(
        ask_result(&l, 3, tx),
        "FAIL\nb: получен не в том порядке (ожидался a); получены не все файлы (0 из 2)\n".as_bytes()
    );
    let (mut l, _) = receive_loop("", "/");
    l.manifest_received(0, tx, Ok(manifest(files))).unwrap();
    let (l, _) = take_file(l, tx, "a", Mode::Octet, b"hello", 1);
    assert_eq!(ask_result(&l, 3, tx), "FAIL\nполучены не все файлы (1 из 2)\n".as_bytes());
}

#[test]
fn plain_client_does_not_disturb_session_and_receiver_finishes_by_itself() {
    let tx = at(1, 1);
    let plain = at(2, 1);
    let (l, _) = receive_loop("", "/");
    let (mut l, lines) = take_file(l, plain, "plain1.bin", Mode::Octet, &pattern(700), 1);
    assert!(lines[0].starts_with("  общий размер неизвестен"));
    assert_eq!(lines[1], "✓ plain1.bin: 700 байт, контрольная сумма не проверялась → /d/plain1.bin");
    match l.heard(2, plain, "0.0.0.2", &build_rq(OP_RRQ, "plain1.bin", Mode::Octet)) {
        Request::Reply(p, Some(line)) => {
            assert_eq!(p, build_error(2, "Read is not allowed"));
            assert_eq!(line, "← RRQ plain1.bin от 0.0.0.2: чтение запрещено (Read is not allowed)");
        }
        other => panic!("{other:?}"),
    }
    let a = pattern(700);
    l.manifest_received(3, tx, Ok(manifest(&[("a.bin", &a)]))).unwrap();
    // others, and text, leave the check alone
    let mut log = lines;
    let (l, lines) = take_file(l, plain, "a.bin", Mode::Octet, b"x", 4);
    log.extend(lines);
    let (l, lines) = take_file(l, tx, "a.bin", Mode::Netascii, b"x", 5);
    log.extend(lines);
    let (mut l, lines) = take_file(l, tx, "a.bin", Mode::Octet, &a, 6);
    assert_eq!(lines[2], "✓ Общая контрольная сумма совпала (файлов: 1)");
    log.extend(lines);
    assert!(!log.iter().any(|m| m.contains("Ошибка")), "{log:#?}");
    assert_eq!(ask_result(&l, 7, plain), "FAIL\nсписок файлов и контрольная сумма не были получены\n".as_bytes());
    assert_eq!(l.result_sent(7, plain, Delivery::Sent), (None, false));
    assert_eq!(ask_result(&l, 8, tx), b"OK\n1\n");
    assert_eq!(l.result_sent(8, tx, Delivery::Sent), (None, true));
}

#[test]
fn a_result_that_does_not_arrive_does_not_end_the_program() {
    let tx = at(1, 1);
    let make = || {
        let (mut l, _) = receive_loop("", "/");
        l.manifest_received(0, tx, Ok(manifest(&[("a", b"x")]))).unwrap();
        take_file(l, tx, "a", Mode::Octet, b"x", 1).0
    };
    let mut l = make();
    assert_eq!(l.result_sent(2, tx, Delivery::Stopped), (None, false));
    let mut l2 = make();
    let (line, ends) = l2.result_sent(2, tx, Delivery::Failed(TftpError::Timeout));
    assert_eq!(
        line.unwrap(),
        "Ошибка: не удалось отправить результат проверки: Таймаут: удалённая сторона не отвечает"
    );
    assert!(!ends);
    let mut l3 = make();
    let (line, ends) = l3.result_sent(2, tx, Delivery::NoSocket(io(IoKind::Other, "нет")));
    assert_eq!(line.unwrap(), "Ошибка: не удалось открыть сокет передачи: нет");
    assert!(!ends);
    // the session is over all the same
    assert!(ask_result(&l, 30_000_000_000, tx).starts_with(b"FAIL\n"));
    assert!(!l.result_sent(31_000_000_000, tx, Delivery::Sent).1);
    assert_eq!(socket_line(&io(IoKind::Other, "x")), "Ошибка: не удалось открыть сокет передачи: x");
}

#[test]
fn duplicates_are_let_go_for_ten_seconds() {
    let tx = at(1, 1);
    let (l, _) = receive_loop("", "/");
    let (mut l, _) = take_file(l, tx, "a", Mode::Octet, b"x", 100);
    let wrq = build_rq(OP_WRQ, "a", Mode::Octet);
    assert!(matches!(l.heard(10_000_000_099, tx, "", &wrq), Request::Ignore));
    assert!(matches!(l.heard(10_000_000_100, tx, "", &wrq), Request::Incoming(..)));
    assert!(matches!(l.heard(200, at(1, 2), "", &wrq), Request::Incoming(..)));
    assert!(matches!(
        l.heard(200, tx, "", &build_rq(OP_WRQ, "b", Mode::Netascii)),
        Request::Incoming(n, Mode::Netascii) if n == "b"
    ));
    l.result_sent(100, tx, Delivery::Sent);
    let rrq = build_rq(OP_RRQ, RESULT_NAME, Mode::Octet);
    assert!(matches!(l.heard(200, tx, "", &rrq), Request::Ignore));
    assert!(matches!(l.heard(10_000_000_100, tx, "", &rrq), Request::Result(_)));
    l.manifest_received(100, tx, Ok(manifest(&[("a", b"x")])));
    let list = build_rq(OP_WRQ, MANIFEST_NAME, Mode::Octet);
    assert!(matches!(l.heard(200, tx, "", &list), Request::Ignore));
    assert!(matches!(l.heard(200, at(1, 5), "", &list), Request::Manifest));
}

#[test]
fn our_receiver_accepts_plain_and_netascii_clients() {
    let (l, _) = receive_loop("дом", "/");
    let from = at(5, 5);
    match l.heard(0, from, "", &build_rq(OP_WRQ, "plain.txt", Mode::Octet)) {
        Request::Incoming(n, Mode::Octet) => assert_eq!(n, "plain.txt"),
        other => panic!("{other:?}"),
    }
    match l.heard(0, from, "", &build_rq(OP_WRQ, "ascii.txt", Mode::Netascii)) {
        Request::Incoming(n, Mode::Netascii) => assert_eq!(n, "ascii.txt"),
        other => panic!("{other:?}"),
    }
    match l.heard(0, from, "", &build_rq(OP_RRQ, "plain.txt", Mode::Octet)) {
        Request::Reply(p, _) => assert_eq!(&p[..4], &[0, 5, 0, 2]),
        other => panic!("{other:?}"),
    }
    let mut rq = vec![0, OP_WRQ as u8];
    rq.extend_from_slice(b"m.txt\0mail\0");
    match l.heard(0, from, "9.9.9.9", &rq) {
        Request::Reply(pkt, Some(line)) => {
            assert_eq!(&pkt[..4], &[0, 5, 0, 4]);
            assert_eq!(line, "← m.txt от 9.9.9.9: режим «mail» не поддерживается");
        }
        other => panic!("{other:?}"),
    }
    // those who look for devices
    match l.heard(0, from, "", b"TFTP-DISCOVER") {
        Request::Reply(p, None) => assert_eq!(p, "TFTP-HEREдом".as_bytes()),
        other => panic!("{other:?}"),
    }
    for (p, code) in [(&b"\0\x02a"[..], 4), (&b"\0\x02tftp:manifest:blake3\0netascii\0"[..], 4)] {
        match l.heard(0, from, "", p) {
            Request::Reply(r, None) => assert_eq!(&r[..4], &[0, 5, 0, code]),
            other => panic!("{other:?}"),
        }
    }
    match l.heard(0, from, "1.1.1.1", b"\0\x01a") {
        Request::Reply(_, Some(line)) => {
            assert_eq!(line, "← RRQ ? от 1.1.1.1: чтение запрещено (Read is not allowed)")
        }
        other => panic!("{other:?}"),
    }
    for p in [&b""[..], b"\0", b"\0\x03\0\x01", b"\0\x04\0\0"] {
        assert!(matches!(l.heard(0, from, "", p), Request::Ignore));
    }
}

#[test]
fn receiver_reports_real_progress_for_our_sender() {
    let tx = at(1, 1);
    let (a, b) = (pattern(1300), pattern(3000));
    let (mut l, _) = receive_loop("", "/");
    l.manifest_received(0, tx, Ok(manifest(&[("proj/a.bin", &a), ("proj/b.bin", &b)])));
    let mut v = Vec::new();
    for (name, data) in [("proj/a.bin", &a), ("proj/b.bin", &b)] {
        let (mut f, _) = l.start_file(tx, name.to_string(), Mode::Octet);
        let mut got = 0;
        v.push(f.progress(0));
        for c in data.chunks(512) {
            f.write(c);
            got += c.len() as u64;
            v.push(f.progress(got));
        }
        l = match f.ended(Ok(done(got))) {
            Ended::Keep(s) => in_place(s, "x").kept(1, 0, "x", Ok(())).0,
            Ended::Drop(..) => panic!(),
        };
    }
    assert!(v.iter().all(|(_, t)| *t == Some(4300)), "{v:?}");
    assert!(v.windows(2).all(|w| w[0].0 <= w[1].0), "{v:?}");
    assert_eq!(v.last().unwrap().0, 4300);
    assert!(v.iter().any(|(g, _)| *g > 1300), "{v:?}");
}

#[test]
fn a_broken_file_is_dropped_and_noted() {
    let tx = at(1, 1);
    let (mut l, _) = receive_loop("", "/");
    l.manifest_received(0, tx, Ok(manifest(&[("a", b"x")])));
    let (f, _) = l.start_file(tx, "a".into(), Mode::Octet);
    let l = match f.ended(Err(TftpError::Remote(0, "Transfer cancelled".into()))) {
        Ended::Drop(l, Some(line)) => {
            assert_eq!(line, "Ошибка приёма a: Удалённая сторона отменила передачу");
            l
        }
        _ => panic!(),
    };
    assert_eq!(
        ask_result(&l, 1, tx),
        "FAIL\na: приём прерван (Удалённая сторона отменила передачу); получены не все файлы (0 из 1)\n".as_bytes()
    );
    let (f, _) = l.start_file(tx, "a".into(), Mode::Octet);
    assert!(matches!(f.ended(Err(TftpError::Cancelled)), Ended::Drop(_, None)));
}

#[test]
fn a_file_that_cannot_be_kept() {
    let (l, _) = receive_loop("", "/");
    let (f, _) = l.start_file(at(1, 1), "a".into(), Mode::Octet);
    match f.ended(Ok(done(0))) {
        Ended::Keep(s) => {
            match s.stored(Err(io(IoKind::Other, "диск")), "/d/a") {
                Stored::Refuse(_, reply, to, lines) => {
                    assert_eq!((reply, to), (build_error(0, "Cannot store file"), done(0).peer));
                    assert_eq!(lines, ["Ошибка: не удалось сохранить /d/a: диск"]);
                }
                Stored::Ack(..) => panic!("acknowledged"),
            }
        }
        Ended::Drop(..) => panic!(),
    }
    let (l, _) = receive_loop("", "/");
    let (f, _) = l.start_file(at(1, 1), "a".into(), Mode::Octet);
    match f.ended(Ok(done(0))) {
        Ended::Keep(s) => {
            let p = in_place(s, "/d/a");
            assert_eq!(p.received(), done(0));
            let (_, lines) = p.kept(0, 0, "/d/a", Err(TftpError::Io("сеть".into())));
            assert_eq!(lines[0], "Ошибка: не удалось отправить последний ACK: IO ошибка: сеть");
        }
        Ended::Drop(..) => panic!(),
    }
    let (reply, line) = create_failed("/d/a", &io(IoKind::Other, "нет прав"));
    assert_eq!(reply, build_error(2, "Access violation"));
    assert_eq!(line, "Ошибка: не удалось создать /d/a: нет прав");
    let (reply, line) = incoming_refused("../x", "1.2.3.4");
    assert_eq!(reply, build_error(2, "Access violation"));
    assert_eq!(line, "← ../x от 1.2.3.4: недопустимое имя, отклонено");
    assert_eq!(incoming_line("a", "1.2.3.4", Mode::Netascii), "← a от 1.2.3.4 (netascii)");
    assert_eq!(incoming_line("a", "1.2.3.4", Mode::Octet), "← a от 1.2.3.4");
}

#[test]
fn damaged_lists_and_failures_are_logged() {
    let (mut l, _) = receive_loop("", "/");
    assert_eq!(
        l.manifest_received(0, at(1, 1), Ok(b"nonsense".to_vec())).unwrap(),
        "Ошибка: список от отправителя повреждён, проверка невозможна"
    );
    assert_eq!(
        l.manifest_received(0, at(1, 1), Err(TftpError::Timeout)).unwrap(),
        "Ошибка приёма контрольной суммы: Таймаут: удалённая сторона не отвечает"
    );
    assert_eq!(l.manifest_received(0, at(1, 1), Err(TftpError::Cancelled)), None);
    assert_eq!(listen_failed(&io(IoKind::TimedOut, "x")), None);
    assert_eq!(listen_failed(&io(IoKind::Other, "x")).unwrap(), "Ошибка приёма: x");
}

#[test]
fn sender_cancel_stops_sending_and_receiver_keeps_listening() {
    let big = pattern(4_000_000);
    let tx = at(1, 1);
    let (mut l, _) = receive_loop("", "/");
    l.manifest_received(0, at(1, 2), Ok(manifest(&[("big.bin", &big)]))).unwrap();
    let (mut f, _) = l.start_file(tx, "big.bin".to_string(), Mode::Octet);
    let mut recv = recv_blocks_deferred(tx, ack_vec(0), Some(tx));
    let mut sender = send_blocks();
    let mut blocks = big.chunks(512);
    let told = loop {
        let s = match sender.next(ReadBlock::Bytes(blocks.next().unwrap().to_vec())) {
            SendStep::Transmit(s) => s,
            other => panic!("{other:?}"),
        };
        if s.sent > 100_000 {
            match s.heard(Got::Cancelled) {
                SendStep::Fail(Some(p), TftpError::Cancelled) => break p,
                other => panic!("{other:?}"),
            }
        }
        let ack = match recv.heard(Got::Packet(tx, s.packet.clone())) {
            RecvStep::Store(p) => {
                f.write(&p.payload);
                match p.stored() {
                    StoreStep::Ack(r, _) => {
                        let ack = r.last.clone();
                        recv = r;
                        ack
                    }
                    StoreStep::Done(_) => panic!("done"),
                }
            }
            other => panic!("{other:?}"),
        };
        sender = match s.heard(Got::Packet(at(2, 2), ack)) {
            SendStep::More(t) => t,
            other => panic!("{other:?}"),
        };
    };
    let e = match recv.heard(Got::Packet(tx, told)) {
        RecvStep::Fail(None, e) => e,
        other => panic!("{other:?}"),
    };
    // the file is dropped, and the program goes on
    let mut l = match f.ended(Err(e)) {
        Ended::Drop(l, line) => {
            assert!(line.unwrap().contains("отменила"));
            l
        }
        Ended::Keep(_) => panic!("kept"),
    };
    let small = pattern(700);
    l.manifest_received(1, at(1, 3), Ok(manifest(&[("small.bin", &small)]))).unwrap();
    let (mut l, _) = take_file(l, at(1, 4), "small.bin", Mode::Octet, &small, 2);
    assert_eq!(ask_result(&l, 3, at(1, 5)), b"OK\n1\n");
    assert_eq!(l.result_sent(3, at(1, 5), Delivery::Sent), (None, true));
}

#[test]
fn receiver_stop_mid_transfer_aborts_and_deletes_everything_received() {
    let tx = at(1, 1);
    let (a, z) = (pattern(1000), pattern(4_000_000));
    let (mut l, _) = receive_loop("", "/");
    l.manifest_received(0, at(1, 2), Ok(manifest(&[("proj/a.bin", &a), ("proj/z.bin", &z)]))).unwrap();
    l.folder_created(11);
    let (l, _) = take_file(l, at(1, 3), "proj/a.bin", Mode::Octet, &a, 1);

    // z.bin is under way
    let (mut f, _) = l.start_file(tx, "proj/z.bin".to_string(), Mode::Octet);
    let mut recv = recv_blocks_deferred(tx, ack_vec(0), Some(tx));
    let mut sender = send_blocks();
    let mut blocks = z.chunks(512);
    let mut got = 0;
    let sending = loop {
        let s = match sender.next(ReadBlock::Bytes(blocks.next().unwrap().to_vec())) {
            SendStep::Transmit(s) => s,
            other => panic!("{other:?}"),
        };
        if f.progress(got).0 > 500_000 {
            break s;
        }
        let ack = match recv.heard(Got::Packet(tx, s.packet.clone())) {
            RecvStep::Store(p) => {
                f.write(&p.payload);
                got += p.payload.len() as u64;
                match p.stored() {
                    StoreStep::Ack(r, _) => {
                        let ack = r.last.clone();
                        recv = r;
                        ack
                    }
                    StoreStep::Done(_) => panic!("done"),
                }
            }
            other => panic!("{other:?}"),
        };
        sender = match s.heard(Got::Packet(at(2, 2), ack)) {
            SendStep::More(t) => t,
            other => panic!("{other:?}"),
        };
    };
    // the user stops: the sender is told, the file at hand is dropped without a word
    let told = match recv.heard(Got::Cancelled) {
        RecvStep::Fail(Some((p, to)), TftpError::Cancelled) => {
            assert_eq!(to, tx);
            p
        }
        other => panic!("{other:?}"),
    };
    match sending.heard(Got::Packet(at(2, 2), told)) {
        SendStep::Fail(None, TftpError::Remote(0, m)) => assert_eq!(m, "Transfer cancelled"),
        other => panic!("{other:?}"),
    }
    let l = match f.ended(Err(TftpError::Cancelled)) {
        Ended::Drop(l, None) => l,
        _ => panic!("kept"),
    };
    // and everything that was kept is removed, with its folder
    let mut c = l.stop();
    assert_eq!(c.next_file(), Some(7));
    assert_eq!(c.file_removed(Ok(())), None);
    assert_eq!(c.next_file(), None);
    assert_eq!(c.next_folder(), Some(11));
    assert_eq!(c.next_folder(), None);
    assert_eq!(c.finish(), ["Удалено принятых файлов: 1", "Приём остановлен"]);
}

#[test]
fn cleaning_up_goes_on_after_failures() {
    let (mut l, _) = receive_loop("", "/");
    l.folder_created(11);
    l.folder_created(12);
    for (id, name) in [(1, "a"), (2, "b"), (3, "c")] {
        let (f, _) = l.start_file(at(1, 1), name.to_string(), Mode::Octet);
        l = match f.ended(Ok(done(0))) {
            Ended::Keep(s) => {
                let shown = format!("/d/{name}");
                in_place(s, &shown).kept(0, id, &shown, Ok(())).0
            }
            Ended::Drop(..) => panic!(),
        };
    }
    let mut c = l.stop();
    assert_eq!(c.next_file(), Some(3));
    assert_eq!(c.file_removed(Ok(())), None);
    assert_eq!(c.next_file(), Some(2));
    assert_eq!(c.file_removed(Err(io(IoKind::NotFound, "нет"))), None);
    assert_eq!(c.next_file(), Some(1));
    assert_eq!(
        c.file_removed(Err(io(IoKind::Other, "занят"))).unwrap(),
        "Ошибка: не удалось удалить /d/a: занят"
    );
    assert_eq!(c.next_file(), None);
    assert_eq!(c.next_folder(), Some(12));
    assert_eq!(c.next_folder(), Some(11));
    assert_eq!(c.next_folder(), None);
    assert_eq!(c.finish(), ["Удалено принятых файлов: 1", "Приём остановлен"]);
    assert_eq!(receive_loop("", "/").0.stop().finish(), ["Приём остановлен"]);
}

#[test]
fn the_list_has_a_limit() {
    let mut b = LimitedBuf { data: vec![1, 2], max: 4 };
    assert_eq!(b.write(&[3, 4]).unwrap(), 2);
    let e = b.write(&[5]).unwrap_err();
    assert_eq!(e.text, "список хэшей слишком большой");
    assert_eq!(b.data, [1, 2, 3, 4]);
    assert_eq!(b.write(&[]).unwrap(), 0);
}
