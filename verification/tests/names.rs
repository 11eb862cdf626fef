use tftp_rs::folder::{collect_files, folder_name, EntryKind};
use tftp_rs::history::{strip_port, History};
use tftp_rs::paths::{
    folder_step, may_read, may_write, next_name, prepare_incoming, resolve_components, resolve_in_root, unique_path,
    Component, FolderStep, NameStep, Place,
};
use tftp_rs::sort::{sorted_order, SortKey};
use tftp_rs::wait::{IoFailure, IoKind};

#[test]
fn incoming_names() {
    let parts = |s: &str| prepare_incoming(s);
    assert_eq!(parts("a.txt").unwrap(), ["a.txt"]);
    assert_eq!(parts("папка/под/a.txt").unwrap(), ["папка", "под", "a.txt"]);
    assert_eq!(parts("a\\b\\c").unwrap(), ["a", "b", "c"]);
    assert_eq!(parts("a//./b/").unwrap(), ["a", "b"]);
    assert_eq!(parts("./a").unwrap(), ["a"]);
    assert_eq!(parts("проект/.git/config").unwrap(), ["проект", ".git", "config"]);
    for bad in ["", "/", "/etc/passwd", "/a//./b/", "\\a", "//a", ".", "..", "../x", "a/../b", "a/..", ".bashrc", "./.ssh/key", "a:b", "C:\\x", "a\0b", "x/\0"] {
        assert_eq!(parts(bad), None, "{bad:?}");
    }
    let deep = vec!["a"; 32].join("/");
    assert_eq!(parts(&deep).unwrap().len(), 32);
    assert_eq!(parts(&format!("{deep}/a")), None);
    assert_eq!(folder_step(Place::Folder), FolderStep::Enter);
    assert_eq!(folder_step(Place::Other), FolderStep::Refuse);
    assert_eq!(folder_step(Place::Nothing), FolderStep::Create);
}

#[test]
fn names_that_are_tried() {
    assert_eq!(unique_path("a.tar.gz", 0), "a.tar.gz");
    assert_eq!(unique_path("a.tar.gz", 2), "a.tar (2).gz");
    assert_eq!(unique_path("README", 1), "README (1)");
    assert_eq!(unique_path(".hidden", 1), ".hidden (1)");
    assert_eq!(unique_path(".hidden.txt", 1), ".hidden (1).txt");
    assert_eq!(unique_path("dot.", 10), "dot (10).");
    for name in ["a.tar.gz", "README", ".hidden", ".a.b", "dot.", "a..b", "…"] {
        let p = std::path::Path::new(name);
        let stem = p.file_stem().unwrap().to_string_lossy().into_owned();
        let ext = p.extension().map(|e| format!(".{}", e.to_string_lossy())).unwrap_or_default();
        assert_eq!(unique_path(name, 7), format!("{stem} (7){ext}"));
    }
    assert_eq!(next_name(0, false), NameStep::Use(0));
    assert_eq!(next_name(0, true), NameStep::Try(1));
    assert_eq!(next_name(9998, true), NameStep::Try(9999));
    assert_eq!(next_name(9999, true), NameStep::Refuse);
    assert_eq!(next_name(9999, false), NameStep::Use(9999));
}

fn search(taken: &[u32]) -> Option<u32> {
    let mut i = 0;
    loop {
        match next_name(i, taken.contains(&i)) {
            NameStep::Use(n) => return Some(n),
            NameStep::Try(n) => i = n,
            NameStep::Refuse => return None,
        }
    }
}

#[test]
fn nothing_is_overwritten() {
    assert_eq!(search(&[]), Some(0));
    assert_eq!(search(&[0, 1, 3]), Some(2));
    let all: Vec<u32> = (0..10_000).collect();
    assert_eq!(search(&all[..9_999]), Some(9_999));
    assert_eq!(search(&all), None);
}

fn components(s: &str) -> Vec<Component> {
    std::path::Path::new(s)
        .components()
        .map(|c| match c {
            std::path::Component::Prefix(_) => Component::Prefix,
            std::path::Component::RootDir => Component::RootDir,
            std::path::Component::CurDir => Component::CurDir,
            std::path::Component::ParentDir => Component::ParentDir,
            std::path::Component::Normal(x) => Component::Normal(x.to_string_lossy().into_owned()),
        })
        .collect()
}

#[test]
fn names_below_the_root() {
    let r = |s: &str| {
        let names = resolve_in_root(s);
        assert_eq!(names, resolve_components(s, &components(s)));
        names
    };
    assert_eq!(r("a.bin").unwrap(), ["a.bin"]);
    assert_eq!(r("a/./b").unwrap(), ["a", "b"]);
    assert_eq!(r("папка//.скрытый/...").unwrap(), ["папка", ".скрытый", "..."]);
    assert_eq!(r("./a").unwrap(), ["a"]);
    for bad in ["", ".", "./.", "./", "/", "..", "../x", "a/../b", "a/..", "/etc/passwd", "//x", "a\0"] {
        assert_eq!(r(bad), None, "{bad:?}");
    }
    // a colon that is no drive is part of a name on every system
    assert_eq!(r("12:30.log").unwrap(), ["12:30.log"]);
    assert_eq!(r("logs/12:30/a.txt:b").unwrap(), ["logs", "12:30", "a.txt:b"]);
    // a backslash separates names, or is part of one
    for (name, whole, parts) in [
        ("dir\\file", vec!["dir\\file"], vec!["dir", "file"]),
        ("a/b\\.\\c", vec!["a", "b\\.\\c"], vec!["a", "b", "c"]),
    ] {
        let got = r(name).unwrap();
        assert_eq!(got, if std::path::is_separator('\\') { parts } else { whole });
    }
    for bad in ["a:b/../c", "/c:x", "..\\x/..", "a\\b/../c:d"] {
        assert_eq!(r(bad), None, "{bad:?}");
    }
    assert!(may_read(Some(true)) && !may_read(Some(false)) && !may_read(None));
    assert!(may_write(Some(true), None) && may_write(Some(true), Some(false)));
    assert!(!may_write(Some(true), Some(true)) && !may_write(Some(false), None) && !may_write(None, None));
}

#[test]
fn files_of_a_folder() {
    assert_eq!(folder_name(Some("proj")), "proj");
    assert_eq!(folder_name(Some("..git")), "git");
    assert_eq!(folder_name(Some("...")), "folder");
    assert_eq!(folder_name(None), "folder");

    let mut w = collect_files(1, Some("proj"));
    let root = w.next_folder().unwrap();
    assert_eq!((root.id, root.name.as_str()), (1, "proj"));
    w.entry(&root, 2, "sub", "/p/sub", EntryKind::Folder);
    w.entry(&root, 3, "z", "/p/z", EntryKind::File);
    w.entry(&root, 4, "link", "/p/link", EntryKind::Link);
    w.entry(&root, 5, "fifo", "/p/fifo", EntryKind::Other);
    w.entry(&root, 6, "?", "/p/?", EntryKind::Unknown);
    w.entry(&root, 7, "no", "/p/no", EntryKind::Folder);
    let no = w.next_folder().unwrap();
    assert_eq!(no.id, 7);
    w.unreadable(&no, "/p/no", &IoFailure { kind: IoKind::PermissionDenied, text: "нельзя".into() }).unwrap();
    let sub = w.next_folder().unwrap();
    w.entry(&sub, 8, ".hidden", "/p/sub/.hidden", EntryKind::File);
    w.entry(&sub, 9, "B", "/p/sub/B", EntryKind::File);
    assert!(w.next_folder().is_none());
    let (files, skipped) = w.finish();
    let shown: Vec<(u64, &str)> = files.iter().map(|f| (f.id, f.name.as_str())).collect();
    assert_eq!(shown, [(8, "proj/sub/.hidden"), (9, "proj/sub/B"), (3, "proj/z")]);
    assert_eq!(skipped, ["/p/?", "/p/no (нельзя)"]);

    let mut w = collect_files(1, None);
    let root = w.next_folder().unwrap();
    let e = w.unreadable(&root, "/p", &IoFailure { kind: IoKind::Other, text: "нет".into() }).unwrap_err();
    assert_eq!(e.message(), "IO ошибка: /p: нет");
}

#[test]
fn sorting_agrees_with_the_standard_library() {
    let mut x: u32 = 12345;
    for n in [0usize, 1, 2, 3, 10, 100, 1000] {
        let mut words: Vec<(u8, String)> = Vec::new();
        for _ in 0..n {
            x = x.wrapping_mul(1664525).wrapping_add(1013904223);
            let len = (x >> 28) as usize % 4;
            let word: String = (0..len).map(|i| ['a', 'b', 'я', 'ё', '\u{ffff}', '😀'][(x as usize >> (3 * i)) % 6]).collect();
            words.push(((x >> 20) as u8 % 2, word));
        }
        let keys: Vec<SortKey> =
            words.iter().map(|(r, w)| SortKey { rank: *r, text: w.chars().collect() }).collect();
        let order = sorted_order(&keys);
        let mut expected: Vec<usize> = (0..n).collect();
        expected.sort_by(|a, b| words[*a].cmp(&words[*b]));
        assert_eq!(order, expected);
    }
}

fn history(entries: &[&str]) -> History {
    History { entries: entries.iter().map(|s| s.to_string()).collect(), recv_dir: None }
}

#[test]
fn history_keeps_the_last_used_first() {
    let mut h = History::default();
    for i in 0..20 {
        h.push(&format!("host{i}"));
    }
    assert_eq!(h.entries.len(), 15);
    assert_eq!(h.entries[0], "host19");
    assert_eq!(h.entries[14], "host5");
    h.push("host10");
    assert_eq!(h.entries.len(), 15);
    assert_eq!(h.entries[0], "host10");
    assert_eq!(h.entries[1], "host19");
    assert_eq!(h.entries.iter().filter(|e| *e == "host10").count(), 1);
    let before = h.entries.clone();
    h.push("host10");
    assert_eq!(h.entries, before);
    h.remove("host19");
    assert!(!h.entries.contains(&"host19".to_string()));
    assert_eq!(h.entries.len(), 14);
    h.remove("нет такого");
    assert_eq!(h.entries.len(), 14);
    h.set_recv_dir("/d");
    assert_eq!(h.recv_dir.as_deref(), Some("/d"));
}

#[test]
fn history_of_an_old_file() {
    let mut old = history(&["a:69", "b", "a", "fe80::1", "c:x", "b:+7", "d:70000", ":5", "e:"]);
    old.recv_dir = Some("/d".to_string());
    let h = History::load(Some(old));
    assert_eq!(h.entries, ["a", "b", "fe80::1", "c:x", "d:70000", "", "e:"]);
    assert_eq!(h.recv_dir.as_deref(), Some("/d"));
    assert!(History::load(None).entries.is_empty());
    assert_eq!(strip_port("host:65535"), "host");
    assert_eq!(strip_port("host:65536"), "host:65536");
    assert_eq!(strip_port("::1"), "::1");
}
