//! The state of the program's window: what the user has entered, what is going on, and
//! what is shown of it. Everything that draws, listens or runs in the background is
//! driven from outside.
use crate::discover;
use crate::discover::Device;
use crate::display;
use crate::display::Color;
use crate::history;
use crate::history::History;
use crate::outside;
use crate::peer::Ip;
use crate::picker::PickTarget;
use crate::send;
use crate::send::PathItem;
use crate::text;
use vstd::prelude::*;

verus! {

/// The port for everything: receiving, sending and looking for devices. It is above 1024,
/// so that it needs no privileges.
pub const PORT: u16 = 6969;

/// So often the list of devices is renewed while it is shown.
pub const SCAN_INTERVAL: u64 = 3_000_000_000;

/// When the log grows beyond this many lines, the oldest go.
pub const MAX_LOG: usize = 2000;

/// So many at a time.
pub const LOG_CUT: usize = 500;

#[derive(Clone, Copy, Debug, PartialEq, Eq, Structural)]
pub enum Tab {
    Receive,
    Send,
}

/// What a transfer in the background reports.
#[derive(Debug)]
pub enum WorkerMsg {
    Log(String),
    /// Bytes done, and bytes in all, where that is known.
    Progress(u64, Option<u64>),
    /// It has ended, or failed for this reason.
    Done(Result<(), String>),
}

/// The window.
#[derive(Debug)]
pub struct TftpApp {
    pub tab: Tab,
    pub host: String,
    pub local_paths: Vec<PathItem>,
    /// The text in the field for the path.
    pub local_input: String,
    pub history: History,
    pub found: Vec<Device>,
    /// Whether devices are being looked for, and since when they were last.
    pub scanning: bool,
    pub last_scan: u64,
    /// Whether the user has entered the address; then it is not replaced by a found one.
    pub host_edited: bool,
    pub recv_dir: String,
    /// While receiving: whether the user has stopped it.
    pub recv_stop: Option<bool>,
    pub my_ips: Vec<String>,
    /// While sending: whether the user has stopped it.
    pub send_stop: Option<bool>,
    /// Whether the window for choosing files is open.
    pub picking: bool,
    pub busy: bool,
    pub progress_bytes: u64,
    pub progress_total: Option<u64>,
    pub log_lines: Vec<String>,
    pub log_open: bool,
    /// Whether a transfer runs in the background.
    pub running: bool,
    /// How the last transfer ended; nothing while there is none to speak of.
    pub last_ok: Option<bool>,
    pub last_error: Option<String>,
    /// The last error that a running transfer has reported.
    pub live_error: Option<String>,
}

#[verifier::ext_equal]
pub struct AppView {
    pub tab: Tab,
    pub host: Seq<char>,
    pub local_paths: Seq<send::PathView>,
    pub local_input: Seq<char>,
    pub history: history::HistoryView,
    pub found: Seq<discover::DeviceView>,
    pub scanning: bool,
    pub last_scan: u64,
    pub host_edited: bool,
    pub recv_dir: Seq<char>,
    pub recv_stop: Option<bool>,
    pub my_ips: Seq<Seq<char>>,
    pub send_stop: Option<bool>,
    pub picking: bool,
    pub busy: bool,
    pub progress_bytes: u64,
    pub progress_total: Option<u64>,
    pub log_lines: Seq<Seq<char>>,
    pub log_open: bool,
    pub running: bool,
    pub last_ok: Option<bool>,
    pub last_error: Option<Seq<char>>,
    pub live_error: Option<Seq<char>>,
}

impl View for TftpApp {
    type V = AppView;

    open spec fn view(&self) -> AppView {
        AppView {
            tab: self.tab,
            host: self.host@,
            local_paths: send::path_views(self.local_paths@),
            local_input: self.local_input@,
            history: self.history@,
            found: discover::devices(self.found@),
            scanning: self.scanning,
            last_scan: self.last_scan,
            host_edited: self.host_edited,
            recv_dir: self.recv_dir@,
            recv_stop: self.recv_stop,
            my_ips: text::texts(self.my_ips@),
            send_stop: self.send_stop,
            picking: self.picking,
            busy: self.busy,
            progress_bytes: self.progress_bytes,
            progress_total: self.progress_total,
            log_lines: text::texts(self.log_lines@),
            log_open: self.log_open,
            running: self.running,
            last_ok: self.last_ok,
            last_error: discover::text_view(self.last_error),
            live_error: discover::text_view(self.live_error),
        }
    }
}

// ---------------------------------------------------------------- the log
/// The log without its oldest lines, if it has grown too long.
pub open spec fn cut(v: Seq<Seq<char>>) -> Seq<Seq<char>> {
    if v.len() > MAX_LOG {
        v.skip(LOG_CUT as int)
    } else {
        v
    }
}

/// The window with one more log line.
pub open spec fn logged(a: AppView, line: Seq<char>) -> AppView {
    AppView { log_lines: cut(a.log_lines.push(line)), ..a }
}

/// The window when something could not be started: the reason is logged and shown.
pub open spec fn refused(a: AppView, msg: Seq<char>) -> AppView {
    AppView {
        last_error: Some(msg),
        last_ok: Some(false),
        progress_bytes: 0,
        progress_total: None,
        ..logged(a, "Ошибка: "@ + msg)
    }
}

/// The window when devices are to be looked for, unless they are already.
pub open spec fn scan_started(a: AppView, now: u64) -> AppView {
    if a.scanning {
        a
    } else {
        AppView { scanning: true, last_scan: now, ..a }
    }
}

/// The window with another tab: nothing of the last transfer remains.
pub open spec fn switched(a: AppView, tab: Tab, now: u64) -> AppView {
    if a.tab == tab {
        a
    } else {
        let b = AppView {
            tab,
            log_lines: Seq::empty(),
            progress_bytes: 0,
            progress_total: None,
            last_ok: None,
            last_error: None,
            live_error: None,
            ..a
        };
        if tab == Tab::Send {
            scan_started(b, now)
        } else {
            b
        }
    }
}

fn cut_log(v: &mut Vec<String>)
    ensures
        text::texts(final(v)@) == cut(text::texts(old(v)@)),
{
    if v.len() > MAX_LOG {
        let rest = v.split_off(LOG_CUT);
        *v = rest;
    }
    assert(text::texts(v@) =~= cut(text::texts(old(v)@)));
}

impl TftpApp {
    /// The window at the start. The folder for incoming files is the last one, if it still
    /// exists, else the home folder, if it is known.
    pub fn new(
        history: History,
        recv_dir_exists: bool,
        home: Option<String>,
        my_ips: Vec<String>,
        now: u64,
    ) -> (r: TftpApp)
        ensures
            r@ == (AppView {
                tab: Tab::Receive,
                host: Seq::empty(),
                local_paths: Seq::empty(),
                local_input: Seq::empty(),
                history: history@,
                found: Seq::empty(),
                scanning: false,
                last_scan: now,
                host_edited: false,
                recv_dir: match (history@.recv_dir, discover::text_view(home)) {
                    (Some(d), h) => if recv_dir_exists {
                        d
                    } else {
                        match h {
                            Some(p) => p,
                            None => Seq::empty(),
                        }
                    },
                    (None, Some(p)) => p,
                    (None, None) => Seq::empty(),
                },
                recv_stop: None,
                my_ips: text::texts(my_ips@),
                send_stop: None,
                picking: false,
                busy: false,
                progress_bytes: 0,
                progress_total: None,
                log_lines: Seq::empty(),
                log_open: true,
                running: false,
                last_ok: None,
                last_error: None,
                live_error: None,
            }),
    {
        let remembered = match &history.recv_dir {
            Some(d) => if recv_dir_exists {
                Some(d.clone())
            } else {
                None
            },
            None => None,
        };
        let recv_dir = match remembered {
            Some(d) => d,
            None => match home {
                Some(p) => p,
                None => String::new(),
            },
        };
        let r = TftpApp {
            tab: Tab::Receive,
            host: String::new(),
            local_paths: Vec::new(),
            local_input: String::new(),
            history,
            found: Vec::new(),
            scanning: false,
            last_scan: now,
            host_edited: false,
            recv_dir,
            recv_stop: None,
            my_ips,
            send_stop: None,
            picking: false,
            busy: false,
            progress_bytes: 0,
            progress_total: None,
            log_lines: Vec::new(),
            log_open: true,
            running: false,
            last_ok: None,
            last_error: None,
            live_error: None,
        };
        assert(r@.local_paths =~= Seq::empty());
        assert(r@.found =~= Seq::empty());
        assert(r@.log_lines =~= Seq::empty());
        r
    }

    /// Adds a log line.
    pub fn push_log(&mut self, line: String)
        ensures
            final(self)@ == logged(old(self)@, line@),
    {
        text::push_text(&mut self.log_lines, line);
        cut_log(&mut self.log_lines);
    }

    /// Something could not be started, for this reason.
    pub fn fail(&mut self, msg: String)
        ensures
            final(self)@ == refused(old(self)@, msg@),
    {
        let mut line = "Ошибка: ".to_owned();
        line.append(msg.as_str());
        self.push_log(line);
        self.last_error = Some(msg);
        self.last_ok = Some(false);
        self.progress_bytes = 0;
        self.progress_total = None;
    }

    /// Devices are to be looked for. Whether that is to be started now.
    pub fn start_scan(&mut self, now: u64) -> (r: bool)
        ensures
            final(self)@ == scan_started(old(self)@, now),
            r == !old(self)@.scanning,
    {
        if self.scanning {
            return false;
        }
        self.last_scan = now;
        self.scanning = true;
        true
    }

    /// Another tab. Whether devices are to be looked for now.
    pub fn switch_tab(&mut self, tab: Tab, now: u64) -> (r: bool)
        ensures
            final(self)@ == switched(old(self)@, tab, now),
            r == (final(self)@.scanning && !old(self)@.scanning),
    {
        if self.tab == tab {
            return false;
        }
        self.tab = tab;
        self.log_lines = Vec::new();
        assert(text::texts(self.log_lines@) =~= Seq::empty());
        self.progress_bytes = 0;
        self.progress_total = None;
        self.last_ok = None;
        self.last_error = None;
        self.live_error = None;
        if tab == Tab::Send {
            return self.start_scan(now);
        }
        false
    }
}

// ---------------------------------------------------------------- choosing
/// Where the window for choosing files starts.
#[derive(Debug)]
pub enum PickerStart {
    /// In the folder of this path, if it is a folder; else at home.
    FolderOf(u64),
    /// In this folder, if it is one; else at home.
    Folder(String),
    Home,
}

/// The window with other paths to send.
pub open spec fn chosen(a: AppView, paths: Seq<send::PathView>) -> AppView {
    AppView { local_input: display::summary(paths), local_paths: paths, ..a }
}

/// The window when choosing has ended with these paths.
pub open spec fn picked(a: AppView, target: PickTarget, paths: Seq<send::PathView>) -> AppView {
    match target {
        PickTarget::Send => chosen(a, paths),
        PickTarget::RecvDir => if paths.len() == 0 {
            a
        } else {
            AppView {
                recv_dir: paths[0].shown,
                history: history::HistoryView { recv_dir: Some(paths[0].shown), ..a.history },
                ..a
            }
        },
    }
}

impl TftpApp {
    /// Opens the window for choosing files, unless it is open. Where it starts.
    pub fn open_picker(&mut self, target: PickTarget) -> (r: Option<PickerStart>)
        ensures
            final(self)@ == (AppView { picking: true, ..old(self)@ }),
            old(self)@.picking <==> r is None,
            r matches Some(s) ==> match s {
                PickerStart::FolderOf(id) => target == PickTarget::Send
                    && old(self)@.local_paths.len() > 0 && id == old(self)@.local_paths[0].id,
                PickerStart::Home => target == PickTarget::Send && old(self)@.local_paths.len()
                    == 0,
                PickerStart::Folder(d) => target == PickTarget::RecvDir && d@ == text::trimmed(
                    old(self)@.recv_dir,
                ),
            },
    {
        if self.picking {
            return None;
        }
        self.picking = true;
        match target {
            PickTarget::Send => {
                if self.local_paths.len() > 0 {
                    assert(self@.local_paths[0] == self.local_paths@[0]@);
                    Some(PickerStart::FolderOf(self.local_paths[0].id))
                } else {
                    Some(PickerStart::Home)
                }
            },
            PickTarget::RecvDir => Some(
                PickerStart::Folder(text::trim_text(self.recv_dir.as_str())),
            ),
        }
    }

    /// What to send.
    pub fn set_local_paths(&mut self, paths: Vec<PathItem>)
        ensures
            final(self)@ == chosen(old(self)@, send::path_views(paths@)),
    {
        self.local_input = display::paths_summary(&paths);
        self.local_paths = paths;
    }

    /// The window for choosing files was closed; with these paths, if any were chosen.
    /// Whether the history is to be saved.
    pub fn picker_closed(&mut self, target: PickTarget, paths: Option<Vec<PathItem>>) -> (r: bool)
        ensures
            r == (target == PickTarget::RecvDir && paths is Some && paths->0.len() > 0),
            match paths {
                Some(v) => final(self)@ == picked(
                    AppView { picking: false, ..old(self)@ },
                    target,
                    send::path_views(v@),
                ),
                None => final(self)@ == (AppView { picking: false, ..old(self)@ }),
            },
    {
        self.picking = false;
        let v = match paths {
            None => {
                return false;
            },
            Some(v) => v,
        };
        match target {
            PickTarget::Send => {
                self.set_local_paths(v);
                false
            },
            PickTarget::RecvDir => {
                if v.len() == 0 {
                    return false;
                }
                assert(send::path_views(v@)[0] == v@[0]@);
                self.recv_dir = v[0].shown.clone();
                self.history.set_recv_dir(v[0].shown.as_str());
                true
            },
        }
    }
}

// ---------------------------------------------------------------- dropped files
/// A file that was dropped on the window.
#[derive(Debug)]
pub struct Dropped {
    pub path: PathItem,
    pub exists: bool,
}

/// The paths of those that exist, or of those that do not; the system may not tell a path.
pub open spec fn dropped_paths(v: Seq<Option<Dropped>>, exists: bool) -> Seq<send::PathView>
    decreases v.len(),
{
    if v.len() == 0 {
        Seq::empty()
    } else {
        let rest = dropped_paths(v.drop_last(), exists);
        match v.last() {
            Some(d) => if d.exists == exists {
                rest.push(d.path@)
            } else {
                rest
            },
            None => rest,
        }
    }
}

/// The window after complaining about each missing path.
pub open spec fn all_missing(a: AppView, paths: Seq<send::PathView>) -> AppView
    decreases paths.len(),
{
    if paths.len() == 0 {
        a
    } else {
        refused(
            all_missing(a, paths.drop_last()),
            paths.last().shown + " не существует"@,
        )
    }
}

/// The window after logging each missing path.
pub open spec fn some_missing(a: AppView, paths: Seq<send::PathView>) -> AppView
    decreases paths.len(),
{
    if paths.len() == 0 {
        a
    } else {
        logged(
            some_missing(a, paths.drop_last()),
            "Пропущено (не существует): "@ + paths.last().shown,
        )
    }
}

/// The window when files were dropped on it: those that exist are to be sent.
pub open spec fn dropped(a: AppView, files: Seq<Option<Dropped>>, now: u64) -> AppView {
    let existing = dropped_paths(files, true);
    let missing = dropped_paths(files, false);
    if a.busy || a.picking {
        logged(a, "Файл проигнорирован: идёт передача или открыт диалог выбора"@)
    } else if existing.len() == 0 && missing.len() == 0 {
        refused(a, "система не передала путь к перетащенному файлу"@)
    } else if existing.len() == 0 {
        all_missing(a, missing)
    } else {
        let b = some_missing(switched(a, Tab::Send, now), missing);
        chosen(logged(b, "Выбрано перетаскиванием: "@ + display::summary(existing)), existing)
    }
}

fn copy_path(p: &PathItem) -> (r: PathItem)
    ensures
        r@ == p@,
{
    let name = match &p.name {
        Some(n) => Some(n.clone()),
        None => None,
    };
    PathItem { id: p.id, shown: p.shown.clone(), name }
}

fn pick_dropped(v: &Vec<Option<Dropped>>, exists: bool) -> (r: Vec<PathItem>)
    ensures
        send::path_views(r@) == dropped_paths(v@, exists),
{
    let mut out: Vec<PathItem> = Vec::new();
    let mut i: usize = 0;
    assert(send::path_views(out@) =~= dropped_paths(v@.take(0), exists));
    while i < v.len()
        invariant
            i <= v.len(),
            send::path_views(out@) == dropped_paths(v@.take(i as int), exists),
        decreases v.len() - i,
    {
        assert(v@.take(i + 1).drop_last() =~= v@.take(i as int));
        let ghost before = send::path_views(out@);
        match &v[i] {
            Some(d) => {
                if d.exists == exists {
                    let p = copy_path(&d.path);
                    out.push(p);
                    assert(send::path_views(out@) =~= before.push(p@));
                }
            },
            None => {},
        }
        i = i + 1;
    }
    assert(v@.take(i as int) =~= v@);
    out
}

impl TftpApp {
    fn complain_all(&mut self, missing: &Vec<PathItem>)
        ensures
            final(self)@ == all_missing(old(self)@, send::path_views(missing@)),
    {
        let ghost all = send::path_views(missing@);
        let mut i: usize = 0;
        assert(all.take(0) =~= Seq::empty());
        while i < missing.len()
            invariant
                i <= missing.len(),
                all == send::path_views(missing@),
                self@ == all_missing(old(self)@, all.take(i as int)),
            decreases missing.len() - i,
        {
            assert(all.take(i + 1).drop_last() =~= all.take(i as int));
            assert(all[i as int] == missing@[i as int]@);
            let mut m = missing[i].shown.clone();
            m.append(" не существует");
            self.fail(m);
            i = i + 1;
        }
        assert(all.take(i as int) =~= all);
    }

    fn log_all(&mut self, missing: &Vec<PathItem>)
        ensures
            final(self)@ == some_missing(old(self)@, send::path_views(missing@)),
    {
        let ghost all = send::path_views(missing@);
        let mut i: usize = 0;
        assert(all.take(0) =~= Seq::empty());
        while i < missing.len()
            invariant
                i <= missing.len(),
                all == send::path_views(missing@),
                self@ == some_missing(old(self)@, all.take(i as int)),
            decreases missing.len() - i,
        {
            assert(all.take(i + 1).drop_last() =~= all.take(i as int));
            assert(all[i as int] == missing@[i as int]@);
            let mut m = "Пропущено (не существует): ".to_owned();
            m.append(missing[i].shown.as_str());
            self.push_log(m);
            i = i + 1;
        }
        assert(all.take(i as int) =~= all);
    }

    /// Files were dropped on the window. Whether devices are to be looked for now.
    pub fn handle_dropped(&mut self, files: &Vec<Option<Dropped>>, now: u64) -> (r: bool)
        ensures
            final(self)@ == dropped(old(self)@, files@, now),
            r == (final(self)@.scanning && !old(self)@.scanning),
    {
        if self.busy || self.picking {
            self.push_log(
                "Файл проигнорирован: идёт передача или открыт диалог выбора".to_owned(),
            );
            return false;
        }
        let existing = pick_dropped(files, true);
        let missing = pick_dropped(files, false);
        if existing.len() == 0 && missing.len() == 0 {
            self.fail("система не передала путь к перетащенному файлу".to_owned());
            return false;
        }
        proof {
            lemma_complaints_keep_scan(self@, send::path_views(missing@));
        }
        if existing.len() == 0 {
            self.complain_all(&missing);
            return false;
        }
        let scan = self.switch_tab(Tab::Send, now);
        proof {
            lemma_complaints_keep_scan(self@, send::path_views(missing@));
        }
        self.log_all(&missing);
        let mut m = "Выбрано перетаскиванием: ".to_owned();
        m.append(display::paths_summary(&existing).as_str());
        self.push_log(m);
        self.set_local_paths(existing);
        scan
    }
}

proof fn lemma_complaints_keep_scan(a: AppView, paths: Seq<send::PathView>)
    ensures
        all_missing(a, paths).scanning == a.scanning,
        some_missing(a, paths).scanning == a.scanning,
    decreases paths.len(),
{
    if paths.len() > 0 {
        lemma_complaints_keep_scan(a, paths.drop_last());
    }
}

// ---------------------------------------------------------------- devices
/// Whether an address is one of a typical home network: 192.168.*.
pub open spec fn is_lan(ip: Ip) -> bool {
    ip matches Ip::V4(a) && a / 0x1_0000 == 0xc0a8
}

/// The devices with an address like that, or those without.
pub open spec fn lan_devices(v: Seq<discover::DeviceView>, lan: bool) -> Seq<
    discover::DeviceView,
>
    decreases v.len(),
{
    if v.len() == 0 {
        v
    } else {
        let rest = lan_devices(v.drop_last(), lan);
        if is_lan(v.last().ip) == lan {
            rest.push(v.last())
        } else {
            rest
        }
    }
}

/// The devices in the order in which they are shown.
pub open spec fn visible(v: Seq<discover::DeviceView>) -> Seq<discover::DeviceView> {
    lan_devices(v, true) + lan_devices(v, false)
}

/// What looking for devices gave.
#[derive(Debug)]
pub enum ScanEvent {
    Found(Vec<Device>),
    /// Nothing yet.
    Pending,
    /// It has ended without a result.
    Lost,
}

/// Whether one of the devices has this address.
pub open spec fn listed_host(v: Seq<discover::DeviceView>, host: Seq<char>) -> bool {
    exists|i: int| 0 <= i < v.len() && (#[trigger] v[i]).address == host
}

/// The address that is entered when devices were found: the one at the top, unless the
/// user has entered another or the present one is among them.
pub open spec fn host_after(a: AppView, found: Seq<discover::DeviceView>) -> Seq<char> {
    let v = visible(found);
    if a.host_edited || listed_host(v, a.host) || v.len() == 0 {
        a.host
    } else {
        v[0].address
    }
}

/// The window when looking for devices gave something.
pub open spec fn scan_polled(a: AppView, ev: ScanEvent) -> AppView {
    if !a.scanning {
        a
    } else {
        match ev {
            ScanEvent::Found(d) => AppView {
                scanning: false,
                found: discover::devices(d@),
                host: host_after(a, discover::devices(d@)),
                ..a
            },
            ScanEvent::Pending => a,
            ScanEvent::Lost => AppView { scanning: false, ..a },
        }
    }
}

fn in_lan(ip: &Ip) -> (r: bool)
    ensures
        r == is_lan(*ip),
{
    match ip {
        Ip::V4(a) => *a / 0x1_0000 == 0xc0a8,
        Ip::V6(_) => false,
    }
}

fn pick_lan(v: &Vec<Device>, lan: bool, out: &mut Vec<Device>)
    ensures
        discover::devices(final(out)@) == discover::devices(old(out)@) + lan_devices(
            discover::devices(v@),
            lan,
        ),
{
    let ghost dv = discover::devices(v@);
    let ghost first = discover::devices(out@);
    let mut i: usize = 0;
    assert(discover::devices(out@) =~= first + lan_devices(dv.take(0), lan));
    while i < v.len()
        invariant
            i <= v.len(),
            dv == discover::devices(v@),
            discover::devices(out@) == first + lan_devices(dv.take(i as int), lan),
        decreases v.len() - i,
    {
        assert(dv.take(i + 1).drop_last() =~= dv.take(i as int));
        assert(dv[i as int] == v@[i as int]@);
        let ghost before = discover::devices(out@);
        if in_lan(&v[i].ip) == lan {
            let d = discover::copy_device(&v[i]);
            out.push(d);
            assert(discover::devices(out@) =~= before.push(d@));
        }
        i = i + 1;
        assert(discover::devices(out@) =~= first + lan_devices(dv.take(i as int), lan));
    }
    assert(dv.take(i as int) =~= dv);
}

fn lists_host(v: &Vec<Device>, host: &str) -> (r: bool)
    ensures
        r == listed_host(discover::devices(v@), host@),
{
    let ghost vv = discover::devices(v@);
    let mut i: usize = 0;
    while i < v.len()
        invariant
            i <= v.len(),
            vv == discover::devices(v@),
            forall|j: int| 0 <= j < i ==> (#[trigger] vv[j]).address != host@,
        decreases v.len() - i,
    {
        assert(vv[i as int] == v@[i as int]@);
        if text::same_text(v[i].address.as_str(), host) {
            return true;
        }
        i = i + 1;
    }
    false
}

impl TftpApp {
    /// The devices in the order in which they are shown: those of a typical home network
    /// first, else as they were found.
    pub fn visible_found(&self) -> (r: Vec<Device>)
        ensures
            discover::devices(r@) == visible(self@.found),
    {
        let mut out: Vec<Device> = Vec::new();
        assert(discover::devices(out@) =~= Seq::empty());
        pick_lan(&self.found, true, &mut out);
        assert(discover::devices(out@) =~= lan_devices(self@.found, true));
        pick_lan(&self.found, false, &mut out);
        out
    }

    /// Whether devices are to be looked for again now.
    pub fn auto_scan(&mut self, now: u64) -> (r: bool)
        ensures
            r == (old(self)@.tab == Tab::Send && !old(self)@.scanning && !old(self)@.busy && now
                - old(self)@.last_scan >= SCAN_INTERVAL),
            final(self)@ == if r {
                scan_started(old(self)@, now)
            } else {
                old(self)@
            },
    {
        if self.tab == Tab::Send && !self.scanning && !self.busy && now >= self.last_scan && now
            - self.last_scan >= SCAN_INTERVAL {
            return self.start_scan(now);
        }
        false
    }

    /// Looking for devices gave something.
    pub fn poll_scan(&mut self, ev: ScanEvent)
        ensures
            final(self)@ == scan_polled(old(self)@, ev),
    {
        if !self.scanning {
            return;
        }
        match ev {
            ScanEvent::Found(d) => {
                self.scanning = false;
                self.found = d;
                if self.host_edited {
                    return;
                }
                let v = self.visible_found();
                let ghost vv = discover::devices(v@);
                if lists_host(&v, self.host.as_str()) {
                    return;
                }
                if v.len() > 0 {
                    assert(vv[0] == v@[0]@);
                    self.host = v[0].address.clone();
                }
            },
            ScanEvent::Pending => {},
            ScanEvent::Lost => {
                self.scanning = false;
            },
        }
    }

    /// The user has clicked the device with this address.
    pub fn choose_device(&mut self, address: &str)
        ensures
            final(self)@ == (AppView { host: address@, host_edited: false, ..old(self)@ }),
    {
        self.host = address.to_owned();
        self.host_edited = false;
    }

    /// The user has clicked an address used lately.
    pub fn choose_recent(&mut self, entry: &str)
        ensures
            final(self)@ == (AppView { host: entry@, host_edited: true, ..old(self)@ }),
    {
        self.host = entry.to_owned();
        self.host_edited = true;
    }

    /// The user has typed an address.
    pub fn host_typed(&mut self)
        ensures
            final(self)@ == (AppView { host_edited: true, ..old(self)@ }),
    {
        self.host_edited = true;
    }

    /// The path that the user has typed; none if there is nothing but white space.
    pub fn typed_path(&self) -> (r: Option<String>)
        ensures
            discover::text_view(r) == if text::trimmed(self@.local_input).len() == 0 {
                None
            } else {
                Some(text::trimmed(self@.local_input))
            },
    {
        let t = text::trim_text(self.local_input.as_str());
        if is_empty_text(t.as_str()) {
            None
        } else {
            Some(t)
        }
    }

    /// That path is what is to be sent, or nothing is.
    pub fn path_typed(&mut self, path: Option<PathItem>)
        ensures
            final(self)@ == (AppView {
                local_paths: match path {
                    Some(p) => seq![p@],
                    None => Seq::empty(),
                },
                ..old(self)@
            }),
    {
        let mut v: Vec<PathItem> = Vec::new();
        assert(send::path_views(v@) =~= Seq::empty());
        if let Some(p) = path {
            v.push(p);
            assert(send::path_views(v@) =~= seq![p@]);
        }
        self.local_paths = v;
    }
}

/// How a device is shown: its address, and its name if it has one.
pub fn device_label(d: &Device) -> (r: String)
    ensures
        r@ == if d.name@.len() == 0 {
            d.address@
        } else {
            d.address@ + "   "@ + d.name@
        },
{
    let mut m = d.address.clone();
    let n = text::chars_of(d.name.as_str());
    if n.len() > 0 {
        m.append("   ");
        m.append(d.name.as_str());
    }
    m
}

// ---------------------------------------------------------------- transfers
/// The window when a transfer starts in the background.
pub open spec fn begun(a: AppView) -> AppView {
    AppView {
        running: true,
        busy: true,
        last_ok: None,
        last_error: None,
        live_error: None,
        progress_bytes: 0,
        progress_total: None,
        log_lines: Seq::empty(),
        ..a
    }
}

/// The first of the paths that does not exist.
pub open spec fn first_missing(paths: Seq<send::PathView>, exists: Seq<bool>) -> Option<
    send::PathView,
>
    decreases paths.len(),
{
    if paths.len() == 0 {
        None
    } else {
        match first_missing(paths.drop_last(), exists) {
            Some(p) => Some(p),
            None => if exists[paths.len() - 1] {
                None
            } else {
                Some(paths.last())
            },
        }
    }
}

/// Why sending cannot be started, if it cannot.
pub open spec fn send_obstacle(a: AppView, exists: Seq<bool>) -> Option<Seq<char>> {
    if a.local_paths.len() == 0 {
        Some("не выбран файл или папка"@)
    } else {
        match first_missing(a.local_paths, exists) {
            Some(p) => Some(p.shown + " не существует"@),
            None => if text::trimmed(a.host).len() == 0 {
                Some("не указан получатель"@)
            } else {
                None
            },
        }
    }
}

/// The window when the user wants to send.
pub open spec fn send_wanted(a: AppView, exists: Seq<bool>) -> AppView {
    match send_obstacle(a, exists) {
        Some(m) => refused(a, m),
        None => begun(
            AppView {
                history: history::HistoryView {
                    entries: history::used(a.history.entries, text::trimmed(a.host)),
                    ..a.history
                },
                send_stop: Some(false),
                ..a
            },
        ),
    }
}

/// The window when the user wants to receive; `is_dir` says whether the folder exists.
pub open spec fn receive_wanted(a: AppView, is_dir: bool, my_ips: Seq<Seq<char>>) -> AppView {
    if text::trimmed(a.recv_dir).len() == 0 || !is_dir {
        refused(a, "папка для приёма не существует"@)
    } else {
        begun(
            AppView {
                history: history::HistoryView { recv_dir: Some(a.recv_dir), ..a.history },
                recv_stop: Some(false),
                my_ips,
                ..a
            },
        )
    }
}

fn is_empty_text(s: &str) -> (r: bool)
    ensures
        r == (s@.len() == 0),
{
    let v = text::chars_of(s);
    v.len() == 0
}

fn find_missing(paths: &Vec<PathItem>, exists: &Vec<bool>) -> (r: Option<String>)
    requires
        paths.len() == exists.len(),
    ensures
        match first_missing(send::path_views(paths@), exists@) {
            Some(p) => r is Some && r->0@ == p.shown,
            None => r is None,
        },
{
    let ghost pv = send::path_views(paths@);
    let mut i: usize = 0;
    while i < paths.len()
        invariant
            i <= paths.len(),
            paths.len() == exists.len(),
            pv == send::path_views(paths@),
            first_missing(pv.take(i as int), exists@) is None,
        decreases paths.len() - i,
    {
        assert(pv.take(i + 1).drop_last() =~= pv.take(i as int));
        assert(pv[i as int] == paths@[i as int]@);
        if !exists[i] {
            proof {
                lemma_first_missing(pv, exists@, i + 1);
            }
            return Some(paths[i].shown.clone());
        }
        i = i + 1;
    }
    assert(pv.take(i as int) =~= pv);
    None
}

proof fn lemma_first_missing(paths: Seq<send::PathView>, exists: Seq<bool>, n: int)
    requires
        0 <= n <= paths.len(),
        first_missing(paths.take(n), exists) is Some,
    ensures
        first_missing(paths, exists) == first_missing(paths.take(n), exists),
    decreases paths.len(),
{
    if n == paths.len() {
        assert(paths.take(n) =~= paths);
    } else {
        assert(paths.drop_last().take(n) =~= paths.take(n));
        lemma_first_missing(paths.drop_last(), exists, n);
    }
}

impl TftpApp {
    /// A transfer starts in the background: nothing of the last one remains.
    pub fn begin_worker(&mut self)
        ensures
            final(self)@ == begun(old(self)@),
    {
        self.running = true;
        self.busy = true;
        self.last_ok = None;
        self.last_error = None;
        self.live_error = None;
        self.progress_bytes = 0;
        self.progress_total = None;
        self.log_lines = Vec::new();
        assert(text::texts(self.log_lines@) =~= Seq::empty());
    }

    /// The user wants to send. `exists` says of each chosen path whether it exists. The
    /// address to send to, if sending starts; the history is then to be saved.
    pub fn start_send(&mut self, exists: &Vec<bool>) -> (r: Option<String>)
        requires
            exists@.len() == old(self)@.local_paths.len(),
        ensures
            final(self)@ == send_wanted(old(self)@, exists@),
            discover::text_view(r) == if send_obstacle(old(self)@, exists@) is None {
                Some(text::trimmed(old(self)@.host))
            } else {
                None
            },
    {
        if self.local_paths.len() == 0 {
            self.fail("не выбран файл или папка".to_owned());
            return None;
        }
        if let Some(p) = find_missing(&self.local_paths, exists) {
            let mut m = p;
            m.append(" не существует");
            self.fail(m);
            return None;
        }
        let host = text::trim_text(self.host.as_str());
        if is_empty_text(host.as_str()) {
            self.fail("не указан получатель".to_owned());
            return None;
        }
        self.history.push(host.as_str());
        self.send_stop = Some(false);
        self.begin_worker();
        Some(host)
    }

    /// The folder for incoming files as the user has entered it.
    pub fn receive_folder(&self) -> (r: String)
        ensures
            r@ == text::trimmed(self@.recv_dir),
    {
        text::trim_text(self.recv_dir.as_str())
    }

    /// The user wants to receive. `is_dir` says whether the folder exists; the addresses of
    /// this computer may have changed. Whether receiving starts; the history is then to be
    /// saved.
    pub fn start_receive(&mut self, is_dir: bool, my_ips: Vec<String>) -> (r: bool)
        ensures
            final(self)@ == receive_wanted(old(self)@, is_dir, text::texts(my_ips@)),
            r == (text::trimmed(old(self)@.recv_dir).len() > 0 && is_dir),
    {
        let dir = self.receive_folder();
        if is_empty_text(dir.as_str()) || !is_dir {
            self.fail("папка для приёма не существует".to_owned());
            return false;
        }
        let d = self.recv_dir.clone();
        self.history.set_recv_dir(d.as_str());
        self.recv_stop = Some(false);
        self.my_ips = my_ips;
        self.begin_worker();
        true
    }

    /// The user stops sending. Whether there is anything to stop.
    pub fn cancel_send(&mut self) -> (r: bool)
        ensures
            r == (old(self)@.send_stop is Some),
            final(self)@ == if r {
                logged(
                    AppView { send_stop: Some(true), ..old(self)@ },
                    "Останавливаю отправку…"@,
                )
            } else {
                old(self)@
            },
    {
        if self.send_stop.is_none() {
            return false;
        }
        self.send_stop = Some(true);
        self.push_log("Останавливаю отправку…".to_owned());
        true
    }

    /// The user stops receiving. Whether there is anything to stop.
    pub fn cancel_receive(&mut self) -> (r: bool)
        ensures
            r == (old(self)@.recv_stop is Some),
            final(self)@ == if r {
                logged(
                    AppView { recv_stop: Some(true), ..old(self)@ },
                    "Останавливаю приём, принятые файлы будут удалены…"@,
                )
            } else {
                old(self)@
            },
    {
        if self.recv_stop.is_none() {
            return false;
        }
        self.recv_stop = Some(true);
        self.push_log("Останавливаю приём, принятые файлы будут удалены…".to_owned());
        true
    }
}

// ---------------------------------------------------------------- reports of a transfer
/// The window after a log line of the transfer; `low` is the line in lower case. What
/// reports an error is shown at once, while the transfer goes on.
pub open spec fn line_taken(a: AppView, line: Seq<char>, low: Seq<char>) -> AppView {
    AppView {
        live_error: if display::reports_error(low) {
            Some(text::trimmed(line))
        } else {
            a.live_error
        },
        log_lines: a.log_lines.push(line),
        ..a
    }
}

/// Whether the user has stopped the transfer.
pub open spec fn user_stopped(a: AppView) -> bool {
    match a.recv_stop {
        Some(b) => b,
        None => a.send_stop == Some(true),
    }
}

/// The last line of a transfer that ended in this way.
pub open spec fn end_line(a: AppView, res: Result<(), Seq<char>>) -> Seq<char> {
    let receiving = a.recv_stop is Some;
    match res {
        Ok(_) => if receiving && user_stopped(a) {
            "=== Приём остановлен ==="@
        } else if receiving {
            "=== Приём завершён ==="@
        } else {
            "=== Готово ==="@
        },
        Err(e) => if user_stopped(a) && !receiving {
            "=== Отправка остановлена ==="@
        } else {
            "=== Ошибка: "@ + e + " ==="@
        },
    }
}

/// The window when the transfer has ended. What the user has stopped is neither a success
/// nor a failure: receiving then ends well, sending with an error. What was sent is no
/// longer chosen.
pub open spec fn end_taken(a: AppView, res: Result<(), Seq<char>>) -> AppView {
    let receiving = a.recv_stop is Some;
    let ok = res is Ok;
    let stopped = user_stopped(a) && receiving == ok;
    let b = AppView {
        last_ok: if stopped {
            None
        } else {
            Some(ok)
        },
        log_lines: a.log_lines.push(end_line(a, res)),
        last_error: match res {
            Err(e) => if stopped {
                a.last_error
            } else {
                Some(e)
            },
            Ok(_) => a.last_error,
        },
        ..a
    };
    if ok && !receiving {
        AppView { local_paths: Seq::empty(), local_input: Seq::empty(), ..b }
    } else {
        b
    }
}

/// The reason in a result, as characters.
pub open spec fn reason(res: Result<(), String>) -> Result<(), Seq<char>> {
    match res {
        Ok(_) => Ok(()),
        Err(e) => Err(e@),
    }
}

/// The window after one report of the transfer.
pub open spec fn report_taken(a: AppView, msg: WorkerMsg) -> AppView {
    match msg {
        WorkerMsg::Log(l) => line_taken(a, l@, outside::lowercase(l@)),
        WorkerMsg::Progress(done, total) => AppView {
            progress_bytes: done,
            progress_total: total,
            ..a
        },
        WorkerMsg::Done(res) => end_taken(a, reason(res)),
    }
}

/// The window after several reports.
pub open spec fn reports_taken(a: AppView, batch: Seq<WorkerMsg>) -> AppView
    decreases batch.len(),
{
    if batch.len() == 0 {
        a
    } else {
        report_taken(reports_taken(a, batch.drop_last()), batch.last())
    }
}

/// Whether one of the reports says that the transfer has ended.
pub open spec fn has_ended(batch: Seq<WorkerMsg>) -> bool {
    exists|i: int| 0 <= i < batch.len() && #[trigger] batch[i] is Done
}

/// The window after all reports that have come; `gone` says that no more can come.
pub open spec fn polled(a: AppView, batch: Seq<WorkerMsg>, gone: bool) -> AppView {
    if !a.running {
        AppView { log_lines: cut(a.log_lines), ..a }
    } else {
        let b = reports_taken(a, batch);
        let c = if gone && !has_ended(batch) {
            AppView {
                log_lines: b.log_lines.push("=== Поток передачи неожиданно завершился ==="@),
                last_error: Some("поток передачи неожиданно завершился"@),
                last_ok: Some(false),
                ..b
            }
        } else {
            b
        };
        let d = if gone || has_ended(batch) {
            AppView { busy: false, running: false, recv_stop: None, send_stop: None, ..c }
        } else {
            c
        };
        AppView { log_lines: cut(d.log_lines), ..d }
    }
}

impl TftpApp {
    /// Takes a log line of the transfer; `low` is the line in lower case.
    pub fn take_line(&mut self, line: String, low: &str)
        ensures
            final(self)@ == line_taken(old(self)@, line@, low@),
    {
        if display::is_error_line(low) {
            self.live_error = Some(text::trim_text(line.as_str()));
        }
        text::push_text(&mut self.log_lines, line);
    }

    fn stopped_by_hand(&self) -> (r: bool)
        ensures
            r == user_stopped(self@),
    {
        match self.recv_stop {
            Some(b) => b,
            None => match self.send_stop {
                Some(b) => b,
                None => false,
            },
        }
    }

    /// Takes the end of the transfer.
    pub fn take_end(&mut self, res: Result<(), String>)
        ensures
            final(self)@ == end_taken(old(self)@, reason(res)),
    {
        let receiving = self.recv_stop.is_some();
        let by_hand = self.stopped_by_hand();
        let ok = res.is_ok();
        let stopped = by_hand && receiving == ok;
        self.last_ok = if stopped {
            None
        } else {
            Some(ok)
        };
        match res {
            Ok(_) => {
                let line = if receiving && by_hand {
                    "=== Приём остановлен ==="
                } else if receiving {
                    "=== Приём завершён ==="
                } else {
                    "=== Готово ==="
                };
                text::push_text(&mut self.log_lines, line.to_owned());
            },
            Err(e) => {
                if stopped {
                    text::push_text(&mut self.log_lines, "=== Отправка остановлена ===".to_owned());
                } else {
                    let mut m = "=== Ошибка: ".to_owned();
                    m.append(e.as_str());
                    m.append(" ===");
                    text::push_text(&mut self.log_lines, m);
                    self.last_error = Some(e);
                }
            },
        }
        if ok && !receiving {
            self.local_paths = Vec::new();
            assert(send::path_views(self.local_paths@) =~= Seq::empty());
            self.local_input = String::new();
        }
    }

    /// Takes one report of the transfer. Whether it says that the transfer has ended.
    fn take_report(&mut self, msg: &WorkerMsg) -> (r: bool)
        ensures
            final(self)@ == report_taken(old(self)@, *msg),
            r == (msg is Done),
    {
        match msg {
            WorkerMsg::Log(l) => {
                let low = outside::to_lowercase(l.as_str());
                self.take_line(l.clone(), low.as_str());
                false
            },
            WorkerMsg::Progress(done, total) => {
                self.progress_bytes = *done;
                self.progress_total = *total;
                false
            },
            WorkerMsg::Done(res) => {
                let again: Result<(), String> = match res {
                    Ok(_) => Ok(()),
                    Err(e) => Err(e.clone()),
                };
                self.take_end(again);
                true
            },
        }
    }

    /// Takes all reports of the transfer that have come; `gone` says that no more can come.
    pub fn poll_client(&mut self, batch: &Vec<WorkerMsg>, gone: bool)
        ensures
            final(self)@ == polled(old(self)@, batch@, gone),
    {
        if self.running {
            let mut ended = false;
            let mut i: usize = 0;
            assert(batch@.take(0) =~= Seq::empty());
            while i < batch.len()
                invariant
                    i <= batch.len(),
                    self@ == reports_taken(old(self)@, batch@.take(i as int)),
                    ended == exists|j: int| 0 <= j < i && #[trigger] batch@[j] is Done,
                decreases batch.len() - i,
            {
                assert(batch@.take(i + 1).drop_last() =~= batch@.take(i as int));
                let done = self.take_report(&batch[i]);
                ended = ended || done;
                i = i + 1;
            }
            assert(batch@.take(i as int) =~= batch@);
            assert(ended == has_ended(batch@));
            if gone && !ended {
                text::push_text(
                    &mut self.log_lines,
                    "=== Поток передачи неожиданно завершился ===".to_owned(),
                );
                self.last_error = Some("поток передачи неожиданно завершился".to_owned());
                self.last_ok = Some(false);
            }
            if gone || ended {
                self.busy = false;
                self.running = false;
                self.recv_stop = None;
                self.send_stop = None;
            }
        }
        cut_log(&mut self.log_lines);
    }
}

// ---------------------------------------------------------------- what is shown
/// How far the bar is filled.
#[derive(Clone, Copy, Debug, PartialEq, Eq, Structural)]
pub enum Bar {
    /// The total is unknown: something moves to and fro.
    Unknown,
    /// Bytes done of bytes in all.
    Ratio,
    Full,
    Empty,
}

/// The bar and the label under it.
#[derive(Debug)]
pub struct ProgressView {
    pub bar: Bar,
    pub color: Color,
    pub label: String,
    pub label_color: Color,
}

/// The bar and the label under it, with the label as characters.
pub struct ShownProgress {
    pub bar: Bar,
    pub color: Color,
    pub label: Seq<char>,
    pub label_color: Color,
}

impl View for ProgressView {
    type V = ShownProgress;

    open spec fn view(&self) -> ShownProgress {
        ShownProgress {
            bar: self.bar,
            color: self.color,
            label: self.label@,
            label_color: self.label_color,
        }
    }
}

/// The total, where it is known and not zero.
pub open spec fn known_total(a: AppView) -> Option<u64> {
    if a.progress_total == Some(0u64) {
        None
    } else {
        a.progress_total
    }
}

/// The label while a transfer goes on; `percent` is the part that is done.
pub open spec fn running_label(a: AppView, percent: u64) -> Seq<char> {
    let done = display::amount_text(a.progress_bytes);
    if a.recv_stop is Some && a.progress_bytes == 0 {
        "ожидание файлов…"@
    } else {
        match known_total(a) {
            Some(t) => done + " / "@ + display::amount_text(t) + "  ("@ + text::dec(
                percent as nat,
            ) + "%)"@,
            None => done + "  (общий размер неизвестен)"@,
        }
    }
}

/// The bar and the label under it.
pub open spec fn progress_shown(a: AppView, percent: u64) -> ShownProgress {
    let label = running_label(a, percent);
    let part = if known_total(a) is Some {
        Bar::Ratio
    } else {
        Bar::Empty
    };
    if a.busy {
        ShownProgress {
            bar: if known_total(a) is Some {
                Bar::Ratio
            } else {
                Bar::Unknown
            },
            color: Color::Green,
            label,
            label_color: Color::Gray,
        }
    } else {
        match a.last_ok {
            Some(true) => ShownProgress {
                bar: Bar::Full,
                color: Color::Green,
                label: (if a.tab == Tab::Receive {
                    "Успешно получено"@
                } else {
                    "Успешно передано"@
                }) + "  ·  "@ + display::amount_text(a.progress_bytes),
                label_color: Color::Green,
            },
            Some(false) => match a.last_error {
                Some(e) => ShownProgress {
                    bar: part,
                    color: Color::Red,
                    label: display::labelled(e),
                    label_color: Color::Red,
                },
                None => ShownProgress {
                    bar: part,
                    color: Color::Red,
                    label,
                    label_color: Color::Gray,
                },
            },
            None => ShownProgress {
                bar: Bar::Empty,
                color: Color::Green,
                label: "готов к работе"@,
                label_color: Color::Gray,
            },
        }
    }
}

/// The button that starts and stops a transfer.
#[derive(Clone, Copy, Debug, PartialEq, Eq, Structural)]
pub enum MainButton {
    /// It starts one, if it can be pressed.
    Start(bool),
    Stop,
    /// It was pressed, and the transfer is about to end.
    Stopping,
}

/// The button for a transfer that can be started if `can`, where `stop` tells of a running one.
pub open spec fn main_button(stop: Option<bool>, can: bool) -> MainButton {
    match stop {
        None => MainButton::Start(can),
        Some(false) => MainButton::Stop,
        Some(true) => MainButton::Stopping,
    }
}

impl TftpApp {
    fn running_text(&self, percent: u64) -> (m: String)
        ensures
            m@ == running_label(self@, percent),
    {
        if self.recv_stop.is_some() && self.progress_bytes == 0 {
            return "ожидание файлов…".to_owned();
        }
        let mut m = display::fmt_bytes(self.progress_bytes);
        match self.total() {
            Some(t) => {
                m.append(" / ");
                m.append(display::fmt_bytes(t).as_str());
                m.append("  (");
                text::push_dec(&mut m, percent);
                m.append("%)");
            },
            None => m.append("  (общий размер неизвестен)"),
        }
        m
    }

    /// The total, where it is known and not zero.
    pub fn total(&self) -> (r: Option<u64>)
        ensures
            r == known_total(self@),
    {
        match self.progress_total {
            Some(t) => if t > 0 {
                Some(t)
            } else {
                None
            },
            None => None,
        }
    }

    /// The bar and the label under it; `percent` is the part that is done.
    pub fn progress_view(&self, percent: u64) -> (r: ProgressView)
        ensures
            r@ == progress_shown(self@, percent),
    {
        let known = self.total().is_some();
        if self.busy {
            return ProgressView {
                bar: if known {
                    Bar::Ratio
                } else {
                    Bar::Unknown
                },
                color: Color::Green,
                label: self.running_text(percent),
                label_color: Color::Gray,
            };
        }
        let part = if known {
            Bar::Ratio
        } else {
            Bar::Empty
        };
        match self.last_ok {
            Some(true) => {
                let mut m = (if self.tab == Tab::Receive {
                    "Успешно получено"
                } else {
                    "Успешно передано"
                }).to_owned();
                m.append("  ·  ");
                m.append(display::fmt_bytes(self.progress_bytes).as_str());
                ProgressView {
                    bar: Bar::Full,
                    color: Color::Green,
                    label: m,
                    label_color: Color::Green,
                }
            },
            Some(false) => match &self.last_error {
                Some(e) => ProgressView {
                    bar: part,
                    color: Color::Red,
                    label: display::error_label(e.as_str()),
                    label_color: Color::Red,
                },
                None => ProgressView {
                    bar: part,
                    color: Color::Red,
                    label: self.running_text(percent),
                    label_color: Color::Gray,
                },
            },
            None => ProgressView {
                bar: Bar::Empty,
                color: Color::Green,
                label: "готов к работе".to_owned(),
                label_color: Color::Gray,
            },
        }
    }

    /// The red label under the bar, while a transfer goes on that has reported an error.
    pub fn live_label(&self) -> (r: Option<String>)
        ensures
            discover::text_view(r) == match self@.live_error {
                Some(e) => if self@.busy {
                    Some(display::labelled(e))
                } else {
                    None
                },
                None => None,
            },
    {
        match &self.live_error {
            Some(e) => if self.busy {
                Some(display::error_label(e.as_str()))
            } else {
                None
            },
            None => None,
        }
    }

    /// Whether something new can be started or chosen.
    pub fn idle(&self) -> (r: bool)
        ensures
            r == (!self@.busy && !self@.picking),
    {
        !self.busy && !self.picking
    }

    /// Whether the tabs can be switched.
    pub fn tabs_enabled(&self) -> (r: bool)
        ensures
            r == !self@.busy,
    {
        !self.busy
    }

    /// The button of the tab for receiving.
    pub fn receive_button(&self) -> (r: MainButton)
        ensures
            r == main_button(self@.recv_stop, !self@.busy && !self@.picking),
    {
        match self.recv_stop {
            None => MainButton::Start(self.idle()),
            Some(b) => if b {
                MainButton::Stopping
            } else {
                MainButton::Stop
            },
        }
    }

    /// The button of the tab for sending: there must be something to send, and someone to
    /// send it to.
    pub fn send_button(&self) -> (r: MainButton)
        ensures
            r == main_button(
                self@.send_stop,
                !self@.busy && !self@.picking && text::trimmed(self@.host).len() > 0
                    && self@.local_paths.len() > 0,
            ),
    {
        match self.send_stop {
            None => {
                let host = text::trim_text(self.host.as_str());
                MainButton::Start(
                    self.idle() && !is_empty_text(host.as_str()) && self.local_paths.len() > 0,
                )
            },
            Some(b) => if b {
                MainButton::Stopping
            } else {
                MainButton::Stop
            },
        }
    }

    /// Whether the path can be edited: where several are chosen, the field lists them.
    pub fn path_editable(&self) -> (r: bool)
        ensures
            r == (self@.local_paths.len() <= 1),
    {
        self.local_paths.len() <= 1
    }

    /// Whether to show that files can be dropped, while they are held over the window.
    pub fn drop_hint(&self, hovering: bool) -> (r: bool)
        ensures
            r == (!self@.busy && !self@.picking && hovering),
    {
        self.idle() && hovering
    }
}

// ---------------------------------------------------------------- laws
/// A success is shown until another tab is opened or something new is started; then
/// nothing of it remains.
pub proof fn law_success_stays_until_something_new(a: AppView, tab: Tab, now: u64, percent: u64)
    requires
        a.last_ok == Some(true),
        !a.busy,
    ensures
        progress_shown(a, percent).bar == Bar::Full,
        progress_shown(a, percent).label_color == Color::Green,
        tab != a.tab ==> switched(a, tab, now).last_ok is None,
        begun(a).last_ok is None,
{
}

/// What the user has stopped is neither shown as a success nor as a failure, and what was
/// to be sent stays chosen. Receiving that was stopped ends well, sending with an error.
pub proof fn law_stopping_is_no_failure(a: AppView, res: Result<(), String>, percent: u64)
    requires
        a.running,
        a.last_error is None,
        user_stopped(a),
        res is Ok <==> a.recv_stop is Some,
    ensures
        ({
            let b = polled(a, seq![WorkerMsg::Done(res)], false);
            &&& b.last_ok is None
            &&& b.last_error is None
            &&& b.local_paths == a.local_paths
            &&& progress_shown(b, percent).bar == Bar::Empty
            &&& progress_shown(b, percent).color == Color::Green
        }),
{
    let m = WorkerMsg::Done(res);
    let batch = seq![m];
    assert(batch[0] is Done);
    assert(has_ended(batch));
    assert(batch.drop_last() =~= Seq::empty());
    assert(reports_taken(a, batch.drop_last()) == a);
    assert(reports_taken(a, batch) == report_taken(a, m));
}

/// When a transfer has ended, the window is free again, whatever it reported.
pub proof fn law_end_frees_the_window(a: AppView, batch: Seq<WorkerMsg>, gone: bool)
    requires
        a.running,
        gone || has_ended(batch),
    ensures
        !polled(a, batch, gone).busy,
        !polled(a, batch, gone).running,
        polled(a, batch, gone).recv_stop is None,
        polled(a, batch, gone).send_stop is None,
{
}

/// The log keeps its newest lines and stays within its limit.
pub proof fn law_log_is_bounded(a: AppView, line: Seq<char>)
    requires
        a.log_lines.len() <= MAX_LOG,
    ensures
        logged(a, line).log_lines.len() <= MAX_LOG,
        logged(a, line).log_lines.last() == line,
{
}

proof fn lemma_lan(v: Seq<discover::DeviceView>, lan: bool)
    ensures
        forall|i: int|
            0 <= i < lan_devices(v, lan).len() ==> is_lan((#[trigger] lan_devices(v, lan)[i]).ip)
                == lan,
        lan_devices(v, true).len() + lan_devices(v, false).len() == v.len(),
    decreases v.len(),
{
    if v.len() > 0 {
        lemma_lan(v.drop_last(), lan);
    }
}

/// The devices of a typical home network are shown above all others, and none is lost.
pub proof fn law_home_network_comes_first(v: Seq<discover::DeviceView>)
    ensures
        visible(v).len() == v.len(),
        forall|i: int, j: int|
            0 <= i < j < v.len() && is_lan((#[trigger] visible(v)[j]).ip) ==> is_lan(
                (#[trigger] visible(v)[i]).ip,
            ),
{
    lemma_lan(v, true);
    lemma_lan(v, false);
    let a = lan_devices(v, true);
    let b = lan_devices(v, false);
    let w = visible(v);
    assert forall|i: int, j: int| 0 <= i < j < v.len() && is_lan((#[trigger] w[j]).ip) implies is_lan(
        (#[trigger] w[i]).ip,
    ) by {
        if j >= a.len() {
            assert(w[j] == b[j - a.len()]);
        } else {
            assert(w[i] == a[i]);
        }
    }
}

// ---------------------------------------------------------------- what each operation does
/// A line goes to the end of the log. Over 2000 lines the oldest 500 go. Nothing else changes.
pub proof fn law_log_keeps_the_newest(a: AppView, line: Seq<char>, old_lines: Seq<Seq<char>>)
    ensures
        a.log_lines.len() < 2000 ==> logged(a, line).log_lines == a.log_lines + seq![line],
        a.log_lines == old_lines && old_lines.len() >= 2000 ==> logged(a, line).log_lines
            == old_lines.skip(500) + seq![line],
        (AppView { log_lines: a.log_lines, ..logged(a, line) }) == a,
        old_lines.len() <= 2000 ==> cut(old_lines) == old_lines,
        old_lines.len() > 2000 ==> cut(old_lines) == old_lines.skip(500),
{
    assert(a.log_lines.push(line) =~= a.log_lines + seq![line]);
    if a.log_lines == old_lines && old_lines.len() >= 2000 {
        assert(old_lines.push(line).skip(500) =~= old_lines.skip(500) + seq![line]);
    }
}

/// A refusal is shown, logged with the word for it in front, and takes the progress of an
/// earlier transfer away. Nothing else changes.
pub proof fn law_refusal_is_shown(a: AppView, msg: Seq<char>)
    ensures
        ({
            let b = refused(a, msg);
            &&& b.last_error == Some(msg)
            &&& b.last_ok == Some(false)
            &&& b.progress_bytes == 0
            &&& b.progress_total is None
            &&& b.log_lines == logged(a, "Ошибка: "@ + msg).log_lines
            &&& AppView {
                last_error: a.last_error,
                last_ok: a.last_ok,
                progress_bytes: a.progress_bytes,
                progress_total: a.progress_total,
                log_lines: a.log_lines,
                ..b
            } == a
        }),
{
}

/// A search starts where none runs, and its time is noted. Nothing else changes.
pub proof fn law_search_starts_once(a: AppView, now: u64)
    ensures
        a.scanning ==> scan_started(a, now) == a,
        !a.scanning ==> ({
            let b = scan_started(a, now);
            &&& b.scanning
            &&& b.last_scan == now
            &&& AppView { scanning: false, last_scan: a.last_scan, ..b } == a
        }),
{
}

/// Turning to the other tab takes away the log, the progress and the outcome of the tab that is
/// left, and nothing else; turning to the tab for sending starts a search. Turning to the tab
/// that is open does nothing.
pub proof fn law_tabs_are_turned(a: AppView, tab: Tab, now: u64)
    ensures
        switched(a, a.tab, now) == a,
        tab != a.tab ==> ({
            let b = switched(a, tab, now);
            &&& b.tab == tab
            &&& b.log_lines.len() == 0
            &&& b.progress_bytes == 0
            &&& b.progress_total is None
            &&& b.last_ok is None
            &&& b.last_error is None
            &&& b.live_error is None
            &&& tab is Send ==> b.scanning && b.last_scan == (if a.scanning {
                a.last_scan
            } else {
                now
            })
            &&& !(tab is Send) ==> b.scanning == a.scanning && b.last_scan == a.last_scan
            &&& AppView {
                tab: a.tab,
                log_lines: a.log_lines,
                progress_bytes: a.progress_bytes,
                progress_total: a.progress_total,
                last_ok: a.last_ok,
                last_error: a.last_error,
                live_error: a.live_error,
                scanning: a.scanning,
                last_scan: a.last_scan,
                ..b
            } == a
        }),
{
}

/// What is picked for sending is sent next, and summed up where the path is typed. The folder
/// that is picked for receiving is received into, and remembered; picking nothing changes
/// nothing.
pub proof fn law_what_is_picked(a: AppView, paths: Seq<send::PathView>)
    ensures
        ({
            let b = picked(a, PickTarget::Send, paths);
            &&& b.local_paths == paths
            &&& b.local_input == display::summary(paths)
            &&& AppView { local_paths: a.local_paths, local_input: a.local_input, ..b } == a
            &&& chosen(a, paths) == b
        }),
        paths.len() == 0 ==> picked(a, PickTarget::RecvDir, paths) == a,
        paths.len() > 0 ==> ({
            let b = picked(a, PickTarget::RecvDir, paths);
            &&& b.recv_dir == paths[0].shown
            &&& b.history.recv_dir == Some(paths[0].shown)
            &&& b.history.entries == a.history.entries
            &&& AppView { recv_dir: a.recv_dir, history: a.history, ..b } == a
        }),
{
}

/// Of what is dropped on the window, everything with a path counts, in its order, among what
/// exists or among what is missing.
pub proof fn law_dropped_files_count(
    v: Seq<Option<Dropped>>,
    w: Seq<Option<Dropped>>,
    d: Dropped,
    there: bool,
)
    ensures
        dropped_paths(v + w, there) == dropped_paths(v, there) + dropped_paths(w, there),
        dropped_paths(seq![Some(d)], there) == if d.exists == there {
            seq![d.path@]
        } else {
            Seq::empty()
        },
        dropped_paths(seq![None], there) == Seq::<send::PathView>::empty(),
        dropped_paths(Seq::empty(), there) == Seq::<send::PathView>::empty(),
    decreases w.len(),
{
    let e = Seq::<Option<Dropped>>::empty();
    let n = Seq::<send::PathView>::empty();
    assert(seq![Some(d)].drop_last() =~= e);
    assert(seq![None::<Dropped>].drop_last() =~= e);
    assert(dropped_paths(e, there) =~= n);
    assert(n.push(d.path@) =~= seq![d.path@]);
    let s = v + w;
    if w.len() == 0 {
        assert(s =~= v);
        assert(dropped_paths(v, there) + dropped_paths(w, there) =~= dropped_paths(v, there));
    } else {
        assert(s.drop_last() =~= v + w.drop_last());
        assert(s.last() == w.last());
        law_dropped_files_count(v, w.drop_last(), d, there);
        assert(dropped_paths(s, there) =~= dropped_paths(v, there) + dropped_paths(w, there));
    }
}

/// What is missing is named, one after the other: as a refusal each where nothing else was
/// dropped, and in the log where something is left to send.
pub proof fn law_missing_files_are_named(
    a: AppView,
    v: Seq<send::PathView>,
    w: Seq<send::PathView>,
    p: send::PathView,
)
    ensures
        all_missing(a, Seq::empty()) == a,
        all_missing(a, seq![p]) == refused(a, p.shown + " не существует"@),
        all_missing(a, v + w) == all_missing(all_missing(a, v), w),
        some_missing(a, Seq::empty()) == a,
        some_missing(a, seq![p]) == logged(a, "Пропущено (не существует): "@ + p.shown),
        some_missing(a, v + w) == some_missing(some_missing(a, v), w),
    decreases w.len(),
{
    assert(seq![p].drop_last() =~= Seq::<send::PathView>::empty());
    assert(all_missing(a, seq![p].drop_last()) == a);
    assert(some_missing(a, seq![p].drop_last()) == a);
    let s = v + w;
    if w.len() == 0 {
        assert(s =~= v);
    } else {
        assert(s.drop_last() =~= v + w.drop_last());
        assert(s.last() == w.last());
        law_missing_files_are_named(a, v, w.drop_last(), p);
    }
}

/// Dropping files. During a transfer or a choice they are ignored, which is logged. Without any
/// path, or with nothing that exists, it is refused. Otherwise what exists is sent next, on the
/// tab for sending.
pub proof fn law_files_are_dropped(a: AppView, files: Seq<Option<Dropped>>, now: u64)
    ensures
        a.busy || a.picking ==> dropped(a, files, now) == logged(
            a,
            "Файл проигнорирован: идёт передача или открыт диалог выбора"@,
        ),
        !a.busy && !a.picking && dropped_paths(files, true).len() == 0 && dropped_paths(
            files,
            false,
        ).len() == 0 ==> dropped(a, files, now) == refused(
            a,
            "система не передала путь к перетащенному файлу"@,
        ),
        !a.busy && !a.picking && dropped_paths(files, true).len() == 0 && dropped_paths(
            files,
            false,
        ).len() > 0 ==> dropped(a, files, now) == all_missing(a, dropped_paths(files, false)),
        !a.busy && !a.picking && dropped_paths(files, true).len() > 0 ==> ({
            let b = dropped(a, files, now);
            &&& b.tab is Send
            &&& b.local_paths == dropped_paths(files, true)
            &&& b.local_input == display::summary(dropped_paths(files, true))
            &&& b.log_lines == logged(
                some_missing(switched(a, Tab::Send, now), dropped_paths(files, false)),
                "Выбрано перетаскиванием: "@ + display::summary(dropped_paths(files, true)),
            ).log_lines
            &&& AppView {
                log_lines: a.log_lines,
                local_paths: a.local_paths,
                local_input: a.local_input,
                ..b
            } == AppView { log_lines: a.log_lines, ..switched(a, Tab::Send, now) }
        }),
{
    let missing = dropped_paths(files, false);
    lemma_some_missing(switched(a, Tab::Send, now), missing);
}

proof fn lemma_some_missing(a: AppView, v: Seq<send::PathView>)
    ensures
        (AppView { log_lines: a.log_lines, ..some_missing(a, v) }) == a,
    decreases v.len(),
{
    if v.len() > 0 {
        lemma_some_missing(a, v.drop_last());
    }
}

/// The home network is 192.168, whatever follows; no other address belongs to it.
pub proof fn law_home_network(x: u8, y: u8, z: u8, w: u8, a: u32)
    requires
        a == x * 0x100_0000 + y * 0x1_0000 + z * 0x100 + w,
    ensures
        is_lan(Ip::V4(a)) <==> x == 192 && y == 168,
        forall|b: u128| !#[trigger] is_lan(Ip::V6(b)),
{
}

/// The devices of the home network stand in front and all others behind them, each in the order
/// in which it was found.
pub proof fn law_devices_in_order(
    v: Seq<discover::DeviceView>,
    w: Seq<discover::DeviceView>,
    d: discover::DeviceView,
    lan: bool,
)
    ensures
        visible(v) == lan_devices(v, true) + lan_devices(v, false),
        lan_devices(v + w, lan) == lan_devices(v, lan) + lan_devices(w, lan),
        lan_devices(seq![d], lan) == if is_lan(d.ip) == lan {
            seq![d]
        } else {
            Seq::empty()
        },
        lan_devices(Seq::empty(), lan) == Seq::<discover::DeviceView>::empty(),
    decreases w.len(),
{
    let n = Seq::<discover::DeviceView>::empty();
    assert(seq![d].drop_last() =~= n);
    assert(lan_devices(n, lan) =~= n);
    assert(n.push(d) =~= seq![d]);
    let s = v + w;
    if w.len() == 0 {
        assert(s =~= v);
        assert(lan_devices(v, lan) + lan_devices(w, lan) =~= lan_devices(v, lan));
    } else {
        assert(s.drop_last() =~= v + w.drop_last());
        assert(s.last() == w.last());
        law_devices_in_order(v, w.drop_last(), d, lan);
        assert(lan_devices(s, lan) =~= lan_devices(v, lan) + lan_devices(w, lan));
    }
}

/// Whom to send to, once a search has ended: an address that was typed stays, and so does one
/// that was found; otherwise it is the first that is shown, where there is one.
pub proof fn law_receiver_is_proposed(
    a: AppView,
    found: Seq<discover::DeviceView>,
    i: int,
)
    ensures
        a.host_edited ==> host_after(a, found) == a.host,
        found.len() == 0 ==> host_after(a, found) == a.host,
        0 <= i < visible(found).len() && visible(found)[i].address == a.host ==> host_after(
            a,
            found,
        ) == a.host,
        !a.host_edited && visible(found).len() > 0 && (forall|j: int|
            0 <= j < visible(found).len() ==> (#[trigger] visible(found)[j]).address != a.host)
            ==> host_after(a, found) == visible(found)[0].address,
{
    law_home_network_comes_first(found);
}

/// The end of a search brings what it found; a search that was lost just ends; one that goes on,
/// or that nobody started, changes nothing.
pub proof fn law_search_ends(a: AppView, d: Vec<Device>)
    ensures
        !a.scanning ==> scan_polled(a, ScanEvent::Found(d)) == a && scan_polled(a, ScanEvent::Lost)
            == a,
        scan_polled(a, ScanEvent::Pending) == a,
        a.scanning ==> ({
            let b = scan_polled(a, ScanEvent::Found(d));
            &&& !b.scanning
            &&& b.found == discover::devices(d@)
            &&& b.host == host_after(a, discover::devices(d@))
            &&& AppView { scanning: true, found: a.found, host: a.host, ..b } == a
        }),
        a.scanning ==> ({
            let b = scan_polled(a, ScanEvent::Lost);
            &&& !b.scanning
            &&& AppView { scanning: true, ..b } == a
        }),
{
}

/// A transfer starts with an empty log, no progress and no outcome.
pub proof fn law_transfer_begins(a: AppView)
    ensures
        ({
            let b = begun(a);
            &&& b.running
            &&& b.busy
            &&& b.last_ok is None
            &&& b.last_error is None
            &&& b.live_error is None
            &&& b.progress_bytes == 0
            &&& b.progress_total is None
            &&& b.log_lines.len() == 0
            &&& AppView {
                running: a.running,
                busy: a.busy,
                last_ok: a.last_ok,
                last_error: a.last_error,
                live_error: a.live_error,
                progress_bytes: a.progress_bytes,
                progress_total: a.progress_total,
                log_lines: a.log_lines,
                ..b
            } == a
        }),
{
}

/// The first path that is missing is the one before which all exist.
pub proof fn law_first_missing_is_found(paths: Seq<send::PathView>, there: Seq<bool>, i: int)
    requires
        paths.len() == there.len(),
    ensures
        (forall|j: int| 0 <= j < paths.len() ==> #[trigger] there[j]) ==> first_missing(
            paths,
            there,
        ) is None,
        0 <= i < paths.len() && !there[i] && (forall|j: int| 0 <= j < i ==> #[trigger] there[j])
            ==> first_missing(paths, there) == Some(paths[i]),
{
    if forall|j: int| 0 <= j < paths.len() ==> #[trigger] there[j] {
        lemma_none_missing(paths, there);
    }
    if 0 <= i < paths.len() && !there[i] && forall|j: int| 0 <= j < i ==> #[trigger] there[j] {
        lemma_first_missing_is(paths, there, i);
    }
}

proof fn lemma_none_missing(paths: Seq<send::PathView>, there: Seq<bool>)
    requires
        forall|j: int| 0 <= j < paths.len() ==> #[trigger] there[j],
    ensures
        first_missing(paths, there) is None,
    decreases paths.len(),
{
    if paths.len() > 0 {
        lemma_none_missing(paths.drop_last(), there);
    }
}

proof fn lemma_first_missing_is(paths: Seq<send::PathView>, there: Seq<bool>, i: int)
    requires
        0 <= i < paths.len(),
        !there[i],
        forall|j: int| 0 <= j < i ==> #[trigger] there[j],
    ensures
        first_missing(paths, there) == Some(paths[i]),
    decreases paths.len(),
{
    let u = paths.drop_last();
    if i < u.len() {
        lemma_first_missing_is(u, there, i);
        assert(u[i] == paths[i]);
    } else {
        lemma_none_missing(u, there);
    }
}

/// Sending is refused without anything to send, with something that is missing, or without a
/// receiver, in this order; otherwise it begins, and the receiver becomes the one used last.
pub proof fn law_sending_begins(a: AppView, there: Seq<bool>, i: int)
    requires
        there.len() == a.local_paths.len(),
    ensures
        a.local_paths.len() == 0 ==> send_wanted(a, there) == refused(
            a,
            "не выбран файл или папка"@,
        ),
        0 <= i < there.len() && !there[i] && (forall|j: int| 0 <= j < i ==> #[trigger] there[j])
            ==> send_wanted(a, there) == refused(a, a.local_paths[i].shown + " не существует"@),
        a.local_paths.len() > 0 && (forall|j: int| 0 <= j < there.len() ==> #[trigger] there[j])
            ==> if text::trimmed(a.host).len() == 0 {
            send_wanted(a, there) == refused(a, "не указан получатель"@)
        } else {
            let b = send_wanted(a, there);
            &&& b.running
            &&& b.busy
            &&& b.send_stop == Some(false)
            &&& b.history.entries == history::used(a.history.entries, text::trimmed(a.host))
            &&& b.history.recv_dir == a.history.recv_dir
            &&& AppView { history: a.history, send_stop: a.send_stop, ..b } == begun(a)
        },
{
    law_first_missing_is_found(a.local_paths, there, i);
}

/// Receiving is refused without a folder to receive into; otherwise it begins, and the folder is
/// remembered.
pub proof fn law_receiving_begins(a: AppView, is_dir: bool, my_ips: Seq<Seq<char>>)
    ensures
        !is_dir || text::trimmed(a.recv_dir).len() == 0 ==> receive_wanted(a, is_dir, my_ips)
            == refused(a, "папка для приёма не существует"@),
        is_dir && text::trimmed(a.recv_dir).len() > 0 ==> ({
            let b = receive_wanted(a, is_dir, my_ips);
            &&& b.running
            &&& b.busy
            &&& b.recv_stop == Some(false)
            &&& b.my_ips == my_ips
            &&& b.history.recv_dir == Some(a.recv_dir)
            &&& b.history.entries == a.history.entries
            &&& AppView { history: a.history, recv_stop: a.recv_stop, my_ips: a.my_ips, ..b }
                == begun(a)
        }),
{
}

/// Each report of a transfer does one thing: a line goes to the log, and is shown where it tells
/// of a failure; progress is shown as reported; the end is taken by its outcome.
pub proof fn law_reports_are_taken(
    a: AppView,
    line: String,
    done: u64,
    total: Option<u64>,
    e: String,
)
    ensures
        ({
            let b = report_taken(a, WorkerMsg::Log(line));
            &&& b.log_lines == a.log_lines + seq![line@]
            &&& b.live_error == if text::occurs(outside::lowercase(line@), "ошибк"@) {
                Some(text::trimmed(line@))
            } else {
                a.live_error
            }
            &&& AppView { log_lines: a.log_lines, live_error: a.live_error, ..b } == a
        }),
        ({
            let b = report_taken(a, WorkerMsg::Progress(done, total));
            &&& b.progress_bytes == done
            &&& b.progress_total == total
            &&& AppView {
                progress_bytes: a.progress_bytes,
                progress_total: a.progress_total,
                ..b
            } == a
        }),
        report_taken(a, WorkerMsg::Done(Ok(()))) == end_taken(a, Ok(())),
        report_taken(a, WorkerMsg::Done(Err(e))) == end_taken(a, Err(e@)),
{
    assert(a.log_lines.push(line@) =~= a.log_lines + seq![line@]);
}

/// Reports are taken one after the other.
pub proof fn law_reports_in_order(
    a: AppView,
    v: Seq<WorkerMsg>,
    w: Seq<WorkerMsg>,
    msg: WorkerMsg,
)
    ensures
        reports_taken(a, Seq::empty()) == a,
        reports_taken(a, seq![msg]) == report_taken(a, msg),
        reports_taken(a, v + w) == reports_taken(reports_taken(a, v), w),
        has_ended(seq![msg]) <==> msg is Done,
        has_ended(v + w) <==> has_ended(v) || has_ended(w),
        !has_ended(Seq::empty()),
    decreases w.len(),
{
    let one = seq![msg];
    assert(one[0] == msg);
    assert(one.drop_last() =~= Seq::<WorkerMsg>::empty());
    assert(reports_taken(a, one.drop_last()) == a);
    let s = v + w;
    assert forall|i: int| 0 <= i < v.len() implies #[trigger] v[i] == s[i] by {}
    assert forall|i: int| 0 <= i < w.len() implies #[trigger] w[i] == s[v.len() + i] by {}
    if has_ended(s) {
        let i = choose|i: int| 0 <= i < s.len() && #[trigger] s[i] is Done;
        if i < v.len() {
            assert(v[i] is Done);
        } else {
            assert(w[i - v.len()] is Done);
        }
    }
    if has_ended(v) {
        let i = choose|i: int| 0 <= i < v.len() && #[trigger] v[i] is Done;
        assert(s[i] is Done);
    }
    if has_ended(w) {
        let i = choose|i: int| 0 <= i < w.len() && #[trigger] w[i] is Done;
        assert(s[v.len() + i] is Done);
    }
    if w.len() == 0 {
        assert(s =~= v);
    } else {
        assert(s.drop_last() =~= v + w.drop_last());
        assert(s.last() == w.last());
        law_reports_in_order(a, v, w.drop_last(), msg);
    }
}

/// The end of receiving: stopped by the user it is neither a success nor a failure; ended by
/// itself it is a success; with a failure that failure is shown, even where the user had asked
/// to stop.
pub proof fn law_end_of_receiving(a: AppView, stopped: bool, e: Seq<char>)
    requires
        a.recv_stop == Some(stopped),
    ensures
        ({
            let b = end_taken(a, Ok(()));
            &&& b.last_ok == if stopped {
                None
            } else {
                Some(true)
            }
            &&& b.last_error == a.last_error
            &&& b.log_lines == a.log_lines + seq![
                if stopped {
                    "=== Приём остановлен ==="@
                } else {
                    "=== Приём завершён ==="@
                },
            ]
            &&& AppView { last_ok: a.last_ok, log_lines: a.log_lines, ..b } == a
        }),
        ({
            let b = end_taken(a, Err(e));
            &&& b.last_ok == Some(false)
            &&& b.last_error == Some(e)
            &&& b.log_lines == a.log_lines + seq!["=== Ошибка: "@ + e + " ==="@]
            &&& AppView {
                last_ok: a.last_ok,
                log_lines: a.log_lines,
                last_error: a.last_error,
                ..b
            } == a
        }),
{
    assert(a.log_lines.push(end_line(a, Ok(()))) =~= a.log_lines + seq![end_line(a, Ok(()))]);
    assert(a.log_lines.push(end_line(a, Err(e))) =~= a.log_lines + seq![end_line(a, Err(e))]);
}

/// The end of sending: a success, after which nothing is chosen any more, even where the user
/// had asked to stop; a failure, which is shown and leaves the choice as it is; or, where the
/// user stopped it, neither.
pub proof fn law_end_of_sending(a: AppView, e: Seq<char>)
    requires
        a.recv_stop is None,
    ensures
        ({
            let b = end_taken(a, Ok(()));
            &&& b.last_ok == Some(true)
            &&& b.last_error == a.last_error
            &&& b.local_paths.len() == 0
            &&& b.local_input.len() == 0
            &&& b.log_lines == a.log_lines + seq!["=== Готово ==="@]
            &&& AppView {
                last_ok: a.last_ok,
                log_lines: a.log_lines,
                local_paths: a.local_paths,
                local_input: a.local_input,
                ..b
            } == a
        }),
        a.send_stop != Some(true) ==> ({
            let b = end_taken(a, Err(e));
            &&& b.last_ok == Some(false)
            &&& b.last_error == Some(e)
            &&& b.log_lines == a.log_lines + seq!["=== Ошибка: "@ + e + " ==="@]
            &&& AppView {
                last_ok: a.last_ok,
                log_lines: a.log_lines,
                last_error: a.last_error,
                ..b
            } == a
        }),
        a.send_stop == Some(true) ==> ({
            let b = end_taken(a, Err(e));
            &&& b.last_ok is None
            &&& b.log_lines == a.log_lines + seq!["=== Отправка остановлена ==="@]
            &&& AppView { last_ok: a.last_ok, log_lines: a.log_lines, ..b } == a
        }),
{
    assert(a.log_lines.push(end_line(a, Ok(()))) =~= a.log_lines + seq![end_line(a, Ok(()))]);
    assert(a.log_lines.push(end_line(a, Err(e))) =~= a.log_lines + seq![end_line(a, Err(e))]);
}

/// Looking after a transfer takes all its reports, once. Where its thread is gone without having
/// reported an end, that is a failure. Without a transfer there is nothing to take.
pub proof fn law_transfer_is_looked_after(a: AppView, batch: Seq<WorkerMsg>)
    ensures
        !a.running ==> forall|gone: bool|
            #[trigger] polled(a, batch, gone) == (AppView { log_lines: cut(a.log_lines), ..a }),
        a.running && !has_ended(batch) ==> ({
            let r = reports_taken(a, batch);
            polled(a, batch, false) == AppView { log_lines: cut(r.log_lines), ..r }
        }),
        a.running && has_ended(batch) ==> forall|gone: bool|
            ({
                let r = reports_taken(a, batch);
                let b = #[trigger] polled(a, batch, gone);
                &&& !b.busy && !b.running && b.recv_stop is None && b.send_stop is None
                &&& b.log_lines == cut(r.log_lines)
                &&& AppView {
                    busy: r.busy,
                    running: r.running,
                    recv_stop: r.recv_stop,
                    send_stop: r.send_stop,
                    log_lines: r.log_lines,
                    ..b
                } == r
            }),
        a.running && !has_ended(batch) ==> ({
            let r = reports_taken(a, batch);
            let b = polled(a, batch, true);
            &&& !b.busy && !b.running && b.recv_stop is None && b.send_stop is None
            &&& b.last_ok == Some(false)
            &&& b.last_error == Some("поток передачи неожиданно завершился"@)
            &&& b.log_lines == cut(
                r.log_lines + seq!["=== Поток передачи неожиданно завершился ==="@],
            )
            &&& AppView {
                busy: r.busy,
                running: r.running,
                recv_stop: r.recv_stop,
                send_stop: r.send_stop,
                last_ok: r.last_ok,
                last_error: r.last_error,
                log_lines: r.log_lines,
                ..b
            } == r
        }),
{
    let r = reports_taken(a, batch);
    let line = "=== Поток передачи неожиданно завершился ==="@;
    assert(r.log_lines.push(line) =~= r.log_lines + seq![line]);
}

/// What the bar shows during a transfer: how much of how much, and the part of it that is done;
/// only how much, where the whole is unknown or nothing; and, while receiving has brought
/// nothing yet, that it waits.
pub proof fn law_progress_during_a_transfer(a: AppView, percent: u64, total: u64)
    requires
        a.busy,
        total > 0,
    ensures
        progress_shown(a, percent).color == Color::Green,
        progress_shown(a, percent).label_color == Color::Gray,
        a.progress_total == Some(total) ==> progress_shown(a, percent).bar == Bar::Ratio,
        a.progress_total is None || a.progress_total == Some(0u64) ==> progress_shown(
            a,
            percent,
        ).bar == Bar::Unknown,
        a.recv_stop is Some && a.progress_bytes == 0 ==> progress_shown(a, percent).label
            == "ожидание файлов…"@,
        !(a.recv_stop is Some && a.progress_bytes == 0) && a.progress_total == Some(total)
            ==> progress_shown(a, percent).label == display::amount_text(a.progress_bytes) + " / "@
            + display::amount_text(total) + "  ("@ + text::dec(percent as nat) + "%)"@,
        !(a.recv_stop is Some && a.progress_bytes == 0) && (a.progress_total is None
            || a.progress_total == Some(0u64)) ==> progress_shown(a, percent).label
            == display::amount_text(a.progress_bytes) + "  (общий размер неизвестен)"@,
{
}

/// What the bar shows after a transfer: full and green with the amount after a success, red with
/// the reason after a failure, and empty where nothing has happened yet.
pub proof fn law_progress_after_a_transfer(a: AppView, percent: u64, e: Seq<char>)
    requires
        !a.busy,
    ensures
        a.last_ok == Some(true) ==> progress_shown(a, percent) == (ShownProgress {
            bar: Bar::Full,
            color: Color::Green,
            label: (if a.tab is Receive {
                "Успешно получено"@
            } else {
                "Успешно передано"@
            }) + "  ·  "@ + display::amount_text(a.progress_bytes),
            label_color: Color::Green,
        }),
        a.last_ok == Some(false) ==> progress_shown(a, percent).color == Color::Red,
        a.last_ok == Some(false) && a.progress_total is None ==> progress_shown(a, percent).bar
            == Bar::Empty,
        a.last_ok == Some(false) && a.progress_total == Some(0u64) ==> progress_shown(
            a,
            percent,
        ).bar == Bar::Empty,
        a.last_ok == Some(false) && a.progress_total is Some && a.progress_total != Some(0u64)
            ==> progress_shown(a, percent).bar == Bar::Ratio,
        a.last_ok == Some(false) && a.last_error == Some(e) ==> progress_shown(a, percent).label
            == display::labelled(e) && progress_shown(a, percent).label_color == Color::Red,
        a.last_ok == Some(false) && a.last_error is None ==> progress_shown(a, percent).label
            == progress_shown(AppView { busy: true, ..a }, percent).label && progress_shown(
            a,
            percent,
        ).label_color == Color::Gray,
        a.last_ok is None ==> progress_shown(a, percent) == (ShownProgress {
            bar: Bar::Empty,
            color: Color::Green,
            label: "готов к работе"@,
            label_color: Color::Gray,
        }),
{
}

/// The large button starts a transfer where none runs, stops one that runs, and waits for one
/// that is being stopped.
pub proof fn law_large_button(can: bool)
    ensures
        main_button(None, can) == MainButton::Start(can),
        main_button(Some(false), can) == MainButton::Stop,
        main_button(Some(true), can) == MainButton::Stopping,
{
}

/// An address is listed where some device of the list has it, whichever that is.
pub proof fn law_listed_addresses(
    v: Seq<discover::DeviceView>,
    d: discover::DeviceView,
    w: Seq<discover::DeviceView>,
    host: Seq<char>,
)
    ensures
        listed_host(v + seq![d] + w, d.address),
        (forall|i: int| 0 <= i < v.len() ==> (#[trigger] v[i]).address != host) ==> !listed_host(
            v,
            host,
        ),
{
    let s = v + seq![d] + w;
    assert(s[v.len() as int] == d);
}

} // verus!
