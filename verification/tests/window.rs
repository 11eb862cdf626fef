use tftp_rs::discover::Device;
use tftp_rs::display::{error_label, Color};
use tftp_rs::history::History;
use tftp_rs::peer::Ip;
use tftp_rs::picker::{entry_label, DoubleClick, Entry, GoStep, Meta, PickTarget, Picker, RawEntry};
use tftp_rs::send::PathItem;
use tftp_rs::wait::{IoFailure, IoKind};
use tftp_rs::window::{
    device_label, Bar, Dropped, MainButton, PickerStart, ProgressView, ScanEvent, Tab, TftpApp, WorkerMsg,
};

fn default_app() -> TftpApp {
    TftpApp::new(History::default(), false, None, vec![], 0)
}

fn path(s: &str) -> PathItem {
    PathItem { id: 1, shown: s.to_string(), name: s.rsplit('/').next().map(|n| n.to_string()) }
}

/// The part of the bar that is filled, as a number.
fn fraction(app: &TftpApp, v: &ProgressView) -> Option<f32> {
    match v.bar {
        Bar::Unknown => None,
        Bar::Full => Some(1.0),
        Bar::Empty => Some(0.0),
        Bar::Ratio => Some(app.progress_bytes as f32 / app.total().unwrap() as f32),
    }
}

fn app_finished(receiving: bool, user_stopped: bool, ok: bool, tab: Tab) -> TftpApp {
    let mut app = default_app();
    app.tab = tab;
    app.local_paths = vec![path("/tmp/x")];
    app.local_input = "/tmp/x".into();
    app.running = true;
    app.busy = true;
    if receiving {
        app.recv_stop = Some(user_stopped);
    }
    let batch = vec![
        WorkerMsg::Progress(2048, Some(2048)),
        WorkerMsg::Done(if ok { Ok(()) } else { Err("сбой".into()) }),
    ];
    app.poll_client(&batch, false);
    app
}

#[test]
fn success_state_after_send() {
    let app = app_finished(false, false, true, Tab::Send);
    assert!(!app.busy && app.recv_stop.is_none());
    assert!(app.local_paths.is_empty() && app.local_input.is_empty(), "поле пути сброшено, как при открытии");
    let v = app.progress_view(100);
    assert_eq!(fraction(&app, &v), Some(1.0));
    assert_eq!(v.color, Color::Green);
    assert_eq!(v.label_color, Color::Green);
    assert!(v.label.starts_with("Успешно передано"), "{}", v.label);
    assert_eq!(v.label, "Успешно передано  ·  2.0 КБ");
}

#[test]
fn success_state_after_receive_finished_by_itself() {
    let app = app_finished(true, false, true, Tab::Receive);
    assert!(!app.busy && app.recv_stop.is_none(), "приём возвращён в исходное состояние");
    let v = app.progress_view(100);
    assert_eq!(fraction(&app, &v), Some(1.0));
    assert_eq!(v.label_color, Color::Green);
    assert!(v.label.starts_with("Успешно получено"), "{}", v.label);
    assert!(app.log_lines.iter().any(|l| l.contains("Приём завершён")));
}

#[test]
fn manual_stop_and_errors_do_not_show_success() {
    let stopped = app_finished(true, true, true, Tab::Receive);
    let v = stopped.progress_view(100);
    assert_eq!((fraction(&stopped, &v), v.label.as_str()), (Some(0.0), "готов к работе"));
    assert!(stopped.log_lines.iter().any(|l| l.contains("Приём остановлен")));
    let failed = app_finished(false, false, false, Tab::Send);
    let v = failed.progress_view(100);
    assert_eq!(v.color, Color::Red);
    assert_eq!(failed.local_paths.len(), 1, "при ошибке выбранное не сбрасывается");
}

#[test]
fn errors_are_shown_in_red_under_the_bar() {
    let failed = app_finished(false, false, false, Tab::Send);
    let v = failed.progress_view(100);
    assert_eq!((v.color, v.label_color), (Color::Red, Color::Red));
    assert_eq!(v.label, "Ошибка: сбой");
    let mut app = default_app();
    app.tab = Tab::Send;
    assert_eq!(app.start_send(&vec![]), None);
    let v = app.progress_view(0);
    assert_eq!((fraction(&app, &v), v.color, v.label_color), (Some(0.0), Color::Red, Color::Red));
    assert_eq!(v.label, "Ошибка: не выбран файл или папка");
    assert_eq!(error_label("Ошибка протокола: x"), "Ошибка протокола: x");
}

#[test]
fn stopped_send_is_not_an_error() {
    let mut app = default_app();
    app.tab = Tab::Send;
    app.local_paths = vec![path("/tmp/x")];
    app.running = true;
    app.busy = true;
    app.send_stop = Some(true);
    app.poll_client(&vec![WorkerMsg::Done(Err("Передача остановлена".into()))], false);
    assert!(!app.busy && app.send_stop.is_none());
    assert_eq!(app.last_ok, None, "остановка — не красная ошибка");
    assert!(app.last_error.is_none());
    assert_eq!(app.local_paths.len(), 1, "выбранное остаётся, можно отправить снова");
    assert!(app.log_lines.iter().any(|l| l.contains("Отправка остановлена")));
}

#[test]
fn receiver_error_while_running_is_shown_in_red() {
    let mut app = default_app();
    app.tab = Tab::Receive;
    app.running = true;
    app.busy = true;
    app.recv_stop = Some(false);
    let line = "Ошибка приёма a.bin: Таймаут: удалённая сторона не отвечает";
    app.poll_client(&vec![WorkerMsg::Log(line.into())], false);
    assert!(app.busy);
    assert_eq!(app.live_error.as_deref(), Some(line));
    assert_eq!(app.live_label().as_deref(), Some(line));
    app.take_line("  ошибка  ".into(), "  ошибка  ");
    assert_eq!(app.live_error.as_deref(), Some("ошибка"));
    app.take_line("всё хорошо".into(), "всё хорошо");
    assert_eq!(app.live_error.as_deref(), Some("ошибка"));
}

#[test]
fn success_stays_until_tab_switch_or_new_action() {
    let mut app = app_finished(false, false, true, Tab::Send);
    assert_eq!(app.last_ok, Some(true));
    app.switch_tab(Tab::Receive, 5);
    assert_eq!(app.last_ok, None);
    assert_eq!(app.progress_view(0).label, "готов к работе");
}

#[test]
fn a_transfer_that_vanishes_is_an_error() {
    let mut app = default_app();
    app.running = true;
    app.busy = true;
    app.send_stop = Some(false);
    app.poll_client(&vec![WorkerMsg::Log("x".into())], true);
    assert!(!app.busy && !app.running);
    assert_eq!(app.last_error.as_deref(), Some("поток передачи неожиданно завершился"));
    assert_eq!(app.log_lines, ["x", "=== Поток передачи неожиданно завершился ==="]);
    // a transfer that had said goodbye has not vanished
    let mut app = default_app();
    app.running = true;
    app.poll_client(&vec![WorkerMsg::Done(Ok(()))], true);
    assert_eq!(app.last_ok, Some(true));
    assert_eq!(app.log_lines, ["=== Готово ==="]);
    // without a transfer nothing is taken
    let mut app = default_app();
    app.poll_client(&vec![WorkerMsg::Done(Ok(()))], true);
    assert_eq!(app.last_ok, None);
}

#[test]
fn labels_of_a_running_transfer() {
    let mut app = default_app();
    app.running = true;
    app.busy = true;
    app.recv_stop = Some(false);
    let v = app.progress_view(0);
    assert_eq!((v.bar, v.label.as_str(), v.label_color), (Bar::Unknown, "ожидание файлов…", Color::Gray));
    app.poll_client(&vec![WorkerMsg::Progress(512, Some(1024))], false);
    let v = app.progress_view(50);
    assert_eq!((v.bar, v.label.as_str()), (Bar::Ratio, "512 Б / 1.0 КБ  (50%)"));
    app.poll_client(&vec![WorkerMsg::Progress(512, Some(0))], false);
    let v = app.progress_view(0);
    assert_eq!((v.bar, v.label.as_str()), (Bar::Unknown, "512 Б  (общий размер неизвестен)"));
}

#[test]
fn starting_and_stopping_to_send() {
    let mut app = default_app();
    app.tab = Tab::Send;
    app.host = "  10.0.0.5 ".into();
    app.set_local_paths(vec![path("/a"), path("/b")]);
    assert_eq!(app.local_input, "2 шт.: a, b");
    assert!(!app.path_editable());
    assert_eq!(app.send_button(), MainButton::Start(true));
    assert_eq!(app.start_send(&vec![true, false]), None);
    assert_eq!(app.last_error.as_deref(), Some("/b не существует"));
    assert_eq!(app.log_lines, ["Ошибка: /b не существует"]);
    assert_eq!(app.start_send(&vec![true, true]).as_deref(), Some("10.0.0.5"));
    assert!(app.busy && app.running && app.last_error.is_none() && app.log_lines.is_empty());
    assert_eq!(app.history.entries, ["10.0.0.5"]);
    assert_eq!(app.send_button(), MainButton::Stop);
    assert!(!app.tabs_enabled() && !app.idle() && !app.drop_hint(true));
    assert!(!app.cancel_receive());
    assert!(app.cancel_send());
    assert_eq!(app.send_button(), MainButton::Stopping);
    assert_eq!(app.log_lines, ["Останавливаю отправку…"]);

    let mut app = default_app();
    app.set_local_paths(vec![path("/a")]);
    assert_eq!(app.send_button(), MainButton::Start(false));
    assert_eq!(app.start_send(&vec![true]), None);
    assert_eq!(app.last_error.as_deref(), Some("не указан получатель"));
}

#[test]
fn starting_and_stopping_to_receive() {
    let mut h = History::default();
    h.set_recv_dir("/old");
    let app = TftpApp::new(h, true, Some("/home".into()), vec![], 0);
    assert_eq!(app.recv_dir, "/old");
    let mut h = History::default();
    h.set_recv_dir("/old");
    let mut app = TftpApp::new(h, false, Some("/home".into()), vec![], 0);
    assert_eq!(app.recv_dir, "/home");
    assert_eq!(app.receive_button(), MainButton::Start(true));
    assert!(!app.start_receive(false, vec![]));
    assert_eq!(app.last_error.as_deref(), Some("папка для приёма не существует"));
    app.recv_dir = " /in ".into();
    assert_eq!(app.receive_folder(), "/in");
    assert!(app.start_receive(true, vec!["10.0.0.1".into()]));
    assert_eq!(app.history.recv_dir.as_deref(), Some(" /in "));
    assert_eq!(app.my_ips, ["10.0.0.1"]);
    assert_eq!(app.receive_button(), MainButton::Stop);
    assert!(app.cancel_receive());
    assert_eq!(app.receive_button(), MainButton::Stopping);
    assert_eq!(app.log_lines, ["Останавливаю приём, принятые файлы будут удалены…"]);
}

#[test]
fn the_log_is_cut() {
    let mut app = default_app();
    for i in 0..2000 {
        app.push_log(i.to_string());
    }
    assert_eq!(app.log_lines.len(), 2000);
    app.push_log("last".into());
    assert_eq!(app.log_lines.len(), 1501);
    assert_eq!(app.log_lines[0], "500");
    assert_eq!(app.log_lines[1500], "last");
}

fn device(ip: u32, address: &str, name: &str) -> Device {
    Device { ip: Ip::V4(ip), address: address.into(), name: name.into() }
}

#[test]
fn devices_in_the_window() {
    let mut app = default_app();
    assert!(app.switch_tab(Tab::Send, 7));
    assert!(app.scanning && app.last_scan == 7);
    assert!(!app.start_scan(8));
    let found = || vec![device(0x0a00_0001, "10.0.0.1", ""), device(0xc0a8_0005, "192.168.0.5", "дом")];
    app.poll_scan(ScanEvent::Pending);
    assert!(app.scanning);
    app.poll_scan(ScanEvent::Found(found()));
    assert!(!app.scanning);
    let shown: Vec<String> = app.visible_found().iter().map(device_label).collect();
    assert_eq!(shown, ["192.168.0.5   дом", "10.0.0.1"]);
    assert_eq!(app.host, "192.168.0.5");
    // a choice that is still there stays
    app.choose_device("10.0.0.1");
    app.start_scan(9);
    app.poll_scan(ScanEvent::Found(found()));
    assert_eq!(app.host, "10.0.0.1");
    // what the user entered stays
    app.choose_recent("host");
    app.start_scan(10);
    app.poll_scan(ScanEvent::Found(found()));
    assert_eq!(app.host, "host");
    app.host = "typed".into();
    app.host_typed();
    app.start_scan(11);
    app.poll_scan(ScanEvent::Lost);
    assert!(!app.scanning);
    assert!(!app.auto_scan(11 + 2_999_999_999));
    assert!(app.auto_scan(11 + 3_000_000_000));
    app.poll_scan(ScanEvent::Lost);
    app.busy = true;
    assert!(!app.auto_scan(u64::MAX));
    app.busy = false;
    app.switch_tab(Tab::Receive, 0);
    assert!(!app.auto_scan(u64::MAX));
}

#[test]
fn dropped_files() {
    let d = |s: &str, exists: bool| Some(Dropped { path: path(s), exists });
    let mut app = default_app();
    app.busy = true;
    assert!(!app.handle_dropped(&vec![d("/a", true)], 0));
    assert_eq!(app.log_lines, ["Файл проигнорирован: идёт передача или открыт диалог выбора"]);
    let mut app = default_app();
    assert!(!app.handle_dropped(&vec![None], 0));
    assert_eq!(app.last_error.as_deref(), Some("система не передала путь к перетащенному файлу"));
    let mut app = default_app();
    assert!(!app.handle_dropped(&vec![d("/a", false), d("/b", false)], 0));
    assert_eq!(app.log_lines, ["Ошибка: /a не существует", "Ошибка: /b не существует"]);
    assert_eq!(app.tab, Tab::Receive);
    let mut app = default_app();
    assert!(app.handle_dropped(&vec![d("/a", true), d("/b", false), d("/c", true)], 3));
    assert_eq!(app.tab, Tab::Send);
    assert_eq!(app.log_lines, ["Пропущено (не существует): /b", "Выбрано перетаскиванием: 2 шт.: a, c"]);
    assert_eq!(app.local_paths.len(), 2);
}

#[test]
fn choosing_paths() {
    let mut app = default_app();
    assert!(matches!(app.open_picker(PickTarget::Send), Some(PickerStart::Home)));
    assert!(app.picking && app.open_picker(PickTarget::Send).is_none());
    assert!(!app.picker_closed(PickTarget::Send, Some(vec![path("/x/y")])));
    assert!(!app.picking);
    assert_eq!(app.local_input, "/x/y");
    assert!(matches!(app.open_picker(PickTarget::Send), Some(PickerStart::FolderOf(1))));
    assert!(!app.picker_closed(PickTarget::Send, None));
    assert_eq!(app.local_paths.len(), 1);
    app.recv_dir = " /r ".into();
    assert!(matches!(app.open_picker(PickTarget::RecvDir), Some(PickerStart::Folder(d)) if d == "/r"));
    assert!(app.picker_closed(PickTarget::RecvDir, Some(vec![path("/in")])));
    assert_eq!((app.recv_dir.as_str(), app.history.recv_dir.as_deref()), ("/in", Some("/in")));
    app.local_input = "  ".into();
    assert_eq!(app.typed_path(), None);
    app.path_typed(None);
    assert!(app.local_paths.is_empty());
    app.local_input = " /q ".into();
    assert_eq!(app.typed_path().as_deref(), Some("/q"));
    app.path_typed(Some(path("/q")));
    assert_eq!(app.local_paths.len(), 1);
}

fn entries(names: &[&str]) -> Vec<Entry> {
    names
        .iter()
        .enumerate()
        .map(|(i, n)| Entry { id: i as u64, name: n.to_string(), is_dir: false, size: 1 })
        .collect()
}

fn sel(p: &Picker, e: &[Entry]) -> Vec<String> {
    p.selected.iter().map(|id| e.iter().find(|x| x.id == *id).unwrap().name.clone()).collect()
}

#[test]
fn picker_click_ctrl_and_shift() {
    let e = entries(&["a", "b", "c", "d", "e"]);
    let mut p = Picker::new(PickTarget::Send, 100, "/d");
    p.apply_click(&e, 1, false, false);
    assert_eq!(sel(&p, &e), ["b"]);
    p.apply_click(&e, 3, true, false);
    assert_eq!(sel(&p, &e), ["b", "d"]);
    p.apply_click(&e, 1, true, false);
    assert_eq!(sel(&p, &e), ["d"]);
    p.apply_click(&e, 0, false, false);
    assert_eq!(sel(&p, &e), ["a"]);
    p.apply_click(&e, 3, false, true);
    assert_eq!(sel(&p, &e), ["a", "b", "c", "d"]);
    p.apply_click(&e, 1, false, true);
    assert_eq!(sel(&p, &e), ["a", "b"]);
    // only a range asks where the last click was
    p.anchor = Some(9);
    p.apply_click(&e, 2, false, false);
    assert_eq!((sel(&p, &e), p.anchor), (vec!["c".to_string()], Some(2)));
}

#[test]
fn picker_for_receive_dir_is_single_choice() {
    let e = entries(&["a", "b", "c"]);
    let mut p = Picker::new(PickTarget::RecvDir, 100, "/d");
    p.apply_click(&e, 0, false, false);
    p.apply_click(&e, 2, true, false);
    assert_eq!(sel(&p, &e), ["c"]);
    p.apply_click(&e, 0, false, true);
    assert_eq!(sel(&p, &e), ["a"]);
}

#[test]
fn folders_in_the_picker() {
    let raw = |id: u64, name: &str, meta: Option<(bool, bool, u64)>| RawEntry {
        id,
        name: name.into(),
        meta: meta.map(|(is_dir, is_file, size)| Meta { is_dir, is_file, size }),
    };
    let list = || {
        vec![
            raw(1, "b.txt", Some((false, true, 2048))),
            raw(2, "Ä", Some((false, true, 1))),
            raw(3, "Zeta", Some((true, false, 0))),
            raw(4, "alpha", Some((true, false, 0))),
            raw(5, ".hidden", Some((true, false, 0))),
            raw(6, "broken", None),
            raw(7, "fifo", Some((false, false, 0))),
            raw(8, "A.txt", Some((false, true, 5))),
        ]
    };
    let mut p = Picker::new(PickTarget::Send, 0, "/start");
    assert!(p.multi() && !p.only_dirs());
    assert_eq!(p.title(), "Выберите файлы или папки");
    assert_eq!((p.go(true), p.go(false)), (GoStep::OpenParent, GoStep::Open));
    p.opened(50, "/d", &list());
    let labels: Vec<String> = p.entries.iter().map(entry_label).collect();
    assert_eq!(labels, ["alpha/", "Zeta/", "A.txt   5 Б", "b.txt   2.0 КБ", "Ä   1 Б"]);
    assert_eq!((p.dir, p.path_input.as_str()), (50, "/d"));
    assert_eq!(p.chosen(), [50]);
    p.select_all();
    assert_eq!(p.chosen(), [4, 3, 8, 1, 2]);
    assert!(p.is_selected(8) && !p.is_selected(5));
    assert_eq!(Picker::double_click(&p.entries, 0), DoubleClick::Enter(4));
    assert_eq!(Picker::double_click(&p.entries, 2), DoubleClick::Choose(8));
    p.path_input = " /x ".into();
    assert_eq!(p.typed_path(), "/x");
    p.failed("/x", &IoFailure { kind: IoKind::NotFound, text: "нет".into() });
    assert_eq!(p.error.as_deref(), Some("Не удалось открыть /x: нет"));
    assert_eq!((p.dir, p.path_input.as_str(), p.entries.len()), (50, "/d", 5));
    p.show_hidden = true;
    p.opened(50, "/d", &list());
    assert_eq!(p.entries[0].name, ".hidden");
    assert!(p.error.is_none() && p.selected.is_empty());
    p.select_only(8);
    assert_eq!(p.chosen(), [8]);

    let mut p = Picker::new(PickTarget::RecvDir, 0, "/start");
    assert_eq!(p.title(), "Выберите папку");
    assert_eq!(p.go(true), GoStep::Open);
    p.opened(50, "/d", &list());
    let names: Vec<&str> = p.entries.iter().map(|e| e.name.as_str()).collect();
    assert_eq!(names, ["alpha", "Zeta"]);
}
