//! Sending what the user has chosen, files and folders, in one go: what is sent under
//! which name, the hash and the list that go ahead where the other side can check, the
//! progress in the whole, and what the answer of the other side means. Paths are known
//! here by numbers and texts only.
use crate::discover;
use crate::error;
use crate::error::TftpError;
use crate::folder;
use crate::folder::Named;
use crate::outside;
use crate::packet::Mode;
use crate::session;
use crate::session::{Feeding, Hashing, MANIFEST_NAME, RESULT_NAME};
use crate::text;
use crate::transfer;
use crate::wait::{IoFailure, IoKind};
use vstd::hash_set::StringHashSet;
use vstd::prelude::*;
use vstd::slice::slice_to_vec;
use vstd::utf8::*;

verus! {

// ---------------------------------------------------------------- what is sent
/// A path that the user has chosen.
#[derive(Debug)]
pub struct PathItem {
    pub id: u64,
    /// The whole path as text.
    pub shown: String,
    /// Its last part, where it has one.
    pub name: Option<String>,
}

#[verifier::ext_equal]
pub struct PathView {
    pub id: u64,
    pub shown: Seq<char>,
    pub name: Option<Seq<char>>,
}

impl View for PathItem {
    type V = PathView;

    open spec fn view(&self) -> PathView {
        PathView {
            id: self.id,
            shown: self.shown@,
            name: discover::text_view(self.name),
        }
    }
}

/// The paths as texts.
pub open spec fn path_views(v: Seq<PathItem>) -> Seq<PathView> {
    v.map_values(|p: PathItem| p@)
}

/// A file that is to be sent.
#[derive(Debug)]
pub struct ToSend {
    pub id: u64,
    /// Its name on the other side.
    pub name: String,
    /// Whether it was chosen itself and not as part of a folder: then it must be readable.
    pub explicit: bool,
}

impl View for ToSend {
    type V = (u64, Seq<char>, bool);

    open spec fn view(&self) -> (u64, Seq<char>, bool) {
        (self.id, self.name@, self.explicit)
    }
}

/// The files as numbers and names.
pub open spec fn to_sends(v: Seq<ToSend>) -> Seq<(u64, Seq<char>, bool)> {
    v.map_values(|t: ToSend| t@)
}

/// What stands at a path.
#[derive(Debug)]
pub enum Chosen {
    File,
    /// The files of the folder, and what in it could not be read.
    Folder(Vec<Named>, Vec<String>),
    Missing,
}

/// What is to be sent, as far as the paths have been looked at.
#[derive(Debug)]
pub struct Plan {
    paths: Vec<PathItem>,
    files: Vec<ToSend>,
    skipped: Vec<String>,
}

#[verifier::ext_equal]
pub struct PlanView {
    /// Paths that are still to be looked at.
    pub paths: Seq<PathView>,
    pub files: Seq<(u64, Seq<char>, bool)>,
    /// What could not be read.
    pub skipped: Seq<Seq<char>>,
}

impl View for Plan {
    type V = PlanView;

    closed spec fn view(&self) -> PlanView {
        PlanView {
            paths: path_views(self.paths@),
            files: to_sends(self.files@),
            skipped: text::texts(self.skipped@),
        }
    }
}

/// The name of a file on the other side.
pub open spec fn file_name_of(p: PathView) -> Seq<char> {
    match p.name {
        Some(n) => n,
        None => "file.bin"@,
    }
}

/// The files of a folder as files to send.
pub open spec fn folder_files(v: Seq<(u64, Seq<char>)>) -> Seq<(u64, Seq<char>, bool)> {
    v.map_values(|n: (u64, Seq<char>)| (n.0, n.1, false))
}

/// The plan when a path has been looked at.
pub open spec fn looked(p: PlanView, path: PathView, there: Chosen) -> Result<
    PlanView,
    error::ErrorView,
> {
    match there {
        Chosen::File => Ok(
            PlanView { files: p.files.push((path.id, file_name_of(path), true)), ..p },
        ),
        Chosen::Folder(files, skipped) => Ok(
            PlanView {
                files: p.files + folder_files(folder::named(files@)),
                skipped: p.skipped + text::texts(skipped@),
                ..p
            },
        ),
        Chosen::Missing => Err(error::ErrorView::Protocol("путь не существует: "@ + path.shown)),
    }
}

/// Plans to send one file or folder.
pub fn send_path(path: PathItem) -> (r: Plan)
    ensures
        r@ == (PlanView { paths: seq![path@], files: Seq::empty(), skipped: Seq::empty() }),
{
    let mut v: Vec<PathItem> = Vec::new();
    v.push(path);
    assert(path_views(v@) =~= seq![path@]);
    send_paths(v)
}

/// Plans to send several files and folders in one go.
pub fn send_paths(paths: Vec<PathItem>) -> (r: Plan)
    ensures
        r@ == (PlanView {
            paths: path_views(paths@),
            files: Seq::empty(),
            skipped: Seq::empty(),
        }),
{
    send_paths_cancel(paths)
}

/// The same; whoever drives the plan may stop it at every step that asks whether the user
/// has stopped it.
pub fn send_paths_cancel(paths: Vec<PathItem>) -> (r: Plan)
    ensures
        r@ == (PlanView {
            paths: path_views(paths@),
            files: Seq::empty(),
            skipped: Seq::empty(),
        }),
{
    let r = Plan { paths, files: Vec::new(), skipped: Vec::new() };
    assert(r@.files =~= Seq::empty());
    assert(r@.skipped =~= Seq::empty());
    r
}

fn push_file(v: &mut Vec<ToSend>, id: u64, name: String, explicit: bool)
    ensures
        to_sends(final(v)@) == to_sends(old(v)@).push((id, name@, explicit)),
{
    v.push(ToSend { id, name, explicit });
    assert(to_sends(v@) =~= to_sends(old(v)@).push((id, name@, explicit)));
}

impl Plan {
    /// The path to look at next.
    pub fn next_path(&mut self) -> (r: Option<PathItem>)
        ensures
            match r {
                Some(p) => {
                    &&& old(self)@.paths.len() > 0
                    &&& p@ == old(self)@.paths[0]
                    &&& final(self)@ == (PlanView {
                        paths: old(self)@.paths.skip(1),
                        ..old(self)@
                    })
                },
                None => old(self)@.paths.len() == 0 && final(self)@ == old(self)@,
            },
    {
        if self.paths.len() == 0 {
            return None;
        }
        let ghost before = self.paths@;
        let p = self.paths.remove(0);
        assert(path_views(self.paths@) =~= path_views(before).skip(1));
        assert(path_views(before)[0] == p@);
        Some(p)
    }

    /// Takes what stands at a path.
    pub fn look(&mut self, path: &PathItem, there: Chosen) -> (r: Result<(), TftpError>)
        ensures
            match looked(old(self)@, path@, there) {
                Ok(p) => r is Ok && final(self)@ == p,
                Err(e) => r is Err && r->Err_0@ == e && final(self)@ == old(self)@,
            },
    {
        match there {
            Chosen::File => {
                let name = match &path.name {
                    Some(n) => n.clone(),
                    None => "file.bin".to_owned(),
                };
                push_file(&mut self.files, path.id, name, true);
                Ok(())
            },
            Chosen::Folder(files, skipped) => {
                self.add_files(&files);
                let mut rest = skipped;
                let ghost before = self.skipped@;
                self.skipped.append(&mut rest);
                assert(text::texts(self.skipped@) =~= text::texts(before) + text::texts(skipped@));
                Ok(())
            },
            Chosen::Missing => {
                let mut m = "путь не существует: ".to_owned();
                m.append(path.shown.as_str());
                Err(TftpError::Protocol(m))
            },
        }
    }

    fn add_files(&mut self, files: &Vec<Named>)
        ensures
            final(self)@ == (PlanView {
                files: old(self)@.files + folder_files(folder::named(files@)),
                ..old(self)@
            }),
    {
        let ghost first = self@.files;
        let ghost all = folder_files(folder::named(files@));
        let mut i: usize = 0;
        assert(first + all.take(0) =~= first);
        while i < files.len()
            invariant
                i <= files.len(),
                all == folder_files(folder::named(files@)),
                self@.paths == old(self)@.paths,
                self@.skipped == old(self)@.skipped,
                self@.files == first + all.take(i as int),
            decreases files.len() - i,
        {
            push_file(&mut self.files, files[i].id, files[i].name.clone(), false);
            assert(all[i as int] == (files@[i as int].id, files@[i as int].name@, false));
            i = i + 1;
            assert(first + all.take(i as int) =~= (first + all.take(i - 1)).push(all[i - 1]));
        }
        assert(all.take(i as int) =~= all);
    }
}

// ---------------------------------------------------------------- names must differ
/// The names of the files.
pub open spec fn names_of(files: Seq<(u64, Seq<char>, bool)>) -> Seq<Seq<char>> {
    files.map_values(|f: (u64, Seq<char>, bool)| f.1)
}

/// Whether the name of file `i` is that of a file before it.
pub open spec fn repeats(names: Seq<Seq<char>>, i: int) -> bool {
    exists|j: int| 0 <= j < i && #[trigger] names[j] == names[i]
}

/// The first file whose name is that of a file before it; the number of files if there is
/// none.
pub open spec fn first_repeat(names: Seq<Seq<char>>, from: int) -> int
    decreases names.len() - from,
{
    if from >= names.len() {
        names.len() as int
    } else if repeats(names, from) {
        from
    } else {
        first_repeat(names, from + 1)
    }
}

proof fn lemma_first_repeat(names: Seq<Seq<char>>, from: int, i: int)
    requires
        0 <= from <= i <= names.len(),
        forall|k: int| from <= k < i ==> !repeats(names, k),
        i < names.len() ==> repeats(names, i),
    ensures
        first_repeat(names, from) == i,
    decreases i - from,
{
    if from < i {
        lemma_first_repeat(names, from + 1, i);
    }
}

proof fn lemma_no_repeat(names: Seq<Seq<char>>, from: int)
    requires
        0 <= from,
        first_repeat(names, from) == names.len(),
    ensures
        forall|i: int| from <= i < names.len() ==> !repeats(names, i),
    decreases names.len() - from,
{
    if from < names.len() {
        lemma_no_repeat(names, from + 1);
    }
}

/// What is to be sent, with names that all differ.
#[derive(Debug)]
pub struct Checked {
    files: Vec<ToSend>,
    skipped: Vec<String>,
}

#[verifier::ext_equal]
pub struct CheckedView {
    pub files: Seq<(u64, Seq<char>, bool)>,
    pub skipped: Seq<Seq<char>>,
}

impl View for Checked {
    type V = CheckedView;

    closed spec fn view(&self) -> CheckedView {
        CheckedView { files: to_sends(self.files@), skipped: text::texts(self.skipped@) }
    }
}

/// The plan when all paths have been looked at. There must be something to send, and no
/// two files may get the same name: one would replace the other.
pub open spec fn planned(p: PlanView) -> Result<CheckedView, error::ErrorView> {
    let names = names_of(p.files);
    let i = first_repeat(names, 0);
    if p.files.len() == 0 && p.skipped.len() == 0 {
        Err(error::ErrorView::Protocol("в выбранном нет файлов для отправки"@))
    } else if i < names.len() {
        Err(
            error::ErrorView::Protocol(
                "два выбранных файла получили бы одно имя «"@ + names[i]
                    + "» — отправьте их по отдельности"@,
            ),
        )
    } else {
        Ok(CheckedView { files: p.files, skipped: p.skipped })
    }
}

fn find_repeat(files: &Vec<ToSend>) -> (r: usize)
    ensures
        r == first_repeat(names_of(to_sends(files@)), 0),
        r <= files.len(),
{
    let ghost names = names_of(to_sends(files@));
    let mut seen = StringHashSet::new();
    let mut i: usize = 0;
    while i < files.len()
        invariant
            i <= files.len(),
            names == names_of(to_sends(files@)),
            forall|k: int| 0 <= k < i ==> !repeats(names, k),
            forall|s: Seq<char>| #[trigger] seen@.contains(s) <==> names.take(i as int).contains(s),
        decreases files.len() - i,
    {
        let name = files[i].name.clone();
        assert(names[i as int] == name@);
        let ghost before = seen@;
        let fresh = seen.insert(name);
        if !fresh {
            proof {
                assert(names.take(i as int).contains(name@));
                let j = choose|j: int| 0 <= j < i && names.take(i as int)[j] == name@;
                assert(names[j] == names[i as int]);
                lemma_first_repeat(names, 0, i as int);
            }
            return i;
        }
        proof {
            if repeats(names, i as int) {
                let j = choose|j: int| 0 <= j < i && #[trigger] names[j] == names[i as int];
                assert(names.take(i as int)[j] == name@);
                assert(before.contains(name@));
            }
            let now = names.take(i + 1);
            assert forall|s: Seq<char>| #[trigger] seen@.contains(s) <==> now.contains(s) by {
                if seen@.contains(s) {
                    if s == name@ {
                        assert(now[i as int] == s);
                    } else {
                        assert(before.contains(s));
                        let j = choose|j: int| 0 <= j < i && names.take(i as int)[j] == s;
                        assert(now[j] == s);
                    }
                }
                if now.contains(s) {
                    let j = choose|j: int| 0 <= j < now.len() && now[j] == s;
                    if j < i {
                        assert(names.take(i as int)[j] == s);
                        assert(before.contains(s));
                    }
                }
            }
        }
        i = i + 1;
    }
    proof {
        lemma_first_repeat(names, 0, i as int);
    }
    i
}

impl Plan {
    /// All paths have been looked at.
    pub fn finish(self) -> (r: Result<Checked, TftpError>)
        ensures
            match planned(self@) {
                Ok(c) => r is Ok && r->Ok_0@ == c,
                Err(e) => r is Err && r->Err_0@ == e,
            },
    {
        if self.files.len() == 0 && self.skipped.len() == 0 {
            return Err(error::protocol("в выбранном нет файлов для отправки"));
        }
        let i: usize = find_repeat(&self.files);
        if i < self.files.len() {
            assert(names_of(to_sends(self.files@))[i as int] == self.files@[i as int].name@);
            let mut m = "два выбранных файла получили бы одно имя «".to_owned();
            m.append(self.files[i].name.as_str());
            m.append("» — отправьте их по отдельности");
            return Err(TftpError::Protocol(m));
        }
        Ok(Checked { files: self.files, skipped: self.skipped })
    }
}

/// What is sent has names that all differ.
pub proof fn law_names_differ(p: PlanView, i: int, j: int)
    requires
        planned(p) is Ok,
        0 <= i < j < p.files.len(),
    ensures
        p.files[i].1 != p.files[j].1,
{
    let names = names_of(p.files);
    lemma_first_repeat_bound(names, 0);
    lemma_no_repeat(names, 0);
    assert(!repeats(names, j));
    assert(names[i] == p.files[i].1);
    assert(names[j] == p.files[j].1);
}

proof fn lemma_first_repeat_bound(names: Seq<Seq<char>>, from: int)
    requires
        0 <= from <= names.len(),
    ensures
        from <= first_repeat(names, from) <= names.len(),
    decreases names.len() - from,
{
    if from < names.len() {
        lemma_first_repeat_bound(names, from + 1);
    }
}

// ---------------------------------------------------------------- preparing
/// A file that is ready to be sent.
#[derive(Debug)]
pub struct ReadyFile {
    pub id: u64,
    pub name: String,
    pub size: u64,
}

impl View for ReadyFile {
    type V = (u64, Seq<char>, u64);

    open spec fn view(&self) -> (u64, Seq<char>, u64) {
        (self.id, self.name@, self.size)
    }
}

/// The files as numbers, names and sizes.
pub open spec fn ready_views(v: Seq<ReadyFile>) -> Seq<(u64, Seq<char>, u64)> {
    v.map_values(|f: ReadyFile| f@)
}

/// Names and sizes of the files.
pub open spec fn name_sizes(v: Seq<(u64, Seq<char>, u64)>) -> Seq<(Seq<char>, u64)> {
    v.map_values(|f: (u64, Seq<char>, u64)| (f.1, f.2))
}

/// What is known between two files: where the other side can check, everything is read
/// and hashed before anything is sent.
struct Core {
    verify: bool,
    files: Vec<ToSend>,
    next: usize,
    list: String,
    ready: Vec<ReadyFile>,
    skipped: Vec<String>,
    contents: Ghost<Seq<(Seq<char>, Seq<u8>)>>,
}

#[verifier::ext_equal]
pub struct PrepareView {
    /// Whether the other side can check.
    pub verify: bool,
    /// Files that are still to be looked into.
    pub todo: Seq<(u64, Seq<char>, bool)>,
    pub ready: Seq<(u64, Seq<char>, u64)>,
    pub skipped: Seq<Seq<char>>,
    /// Names and contents of the files that were read.
    pub contents: Seq<(Seq<char>, Seq<u8>)>,
}

impl Core {
    spec fn view(&self) -> PrepareView {
        PrepareView {
            verify: self.verify,
            todo: to_sends(self.files@).skip(self.next as int),
            ready: ready_views(self.ready@),
            skipped: text::texts(self.skipped@),
            contents: self.contents@,
        }
    }

    spec fn wf(&self) -> bool {
        &&& self.next <= self.files.len()
        &&& self.verify ==> {
            &&& self.list@ == session::list_lines(name_sizes(ready_views(self.ready@)))
            &&& name_sizes(ready_views(self.ready@)) == session::list_of(self.contents@)
            &&& forall|i: int|
                0 <= i < self.contents@.len() ==> session::listable((#[trigger] self.contents@[i]).0)
        }
    }
}

/// Preparing what is to be sent, between two files.
pub struct Prepare {
    core: Core,
    hashing: Hashing,
}

impl View for Prepare {
    type V = PrepareView;

    closed spec fn view(&self) -> PrepareView {
        self.core.view()
    }
}

/// Preparing what is to be sent, with a file at hand that is still to be opened.
pub struct Opening {
    core: Core,
    hashing: Hashing,
}

impl View for Opening {
    type V = PrepareView;

    closed spec fn view(&self) -> PrepareView {
        self.core.view()
    }
}

/// Preparing what is to be sent, while a file is read.
pub struct Reading {
    core: Core,
    feeding: Feeding,
    bytes: Ghost<Seq<u8>>,
}

#[verifier::ext_equal]
pub struct ReadingView {
    pub prepare: PrepareView,
    /// What has been read of the file.
    pub bytes: Seq<u8>,
}

impl View for Reading {
    type V = ReadingView;

    closed spec fn view(&self) -> ReadingView {
        ReadingView { prepare: self.core.view(), bytes: self.bytes@ }
    }
}

/// What to do next while preparing.
pub enum PrepareStep {
    /// Open the file at hand.
    Open(Opening),
    /// All files have been looked into.
    Done(Prepare),
    Fail(TftpError),
}

pub enum PrepareStepView {
    Open(PrepareView),
    Done(PrepareView),
    Fail(error::ErrorView),
}

impl View for PrepareStep {
    type V = PrepareStepView;

    open spec fn view(&self) -> PrepareStepView {
        match self {
            PrepareStep::Open(o) => PrepareStepView::Open(o@),
            PrepareStep::Done(p) => PrepareStepView::Done(p@),
            PrepareStep::Fail(e) => PrepareStepView::Fail(e@),
        }
    }
}

/// What to do next while preparing. A name that breaks its line cannot stand in the list.
pub open spec fn prepare_next(p: PrepareView, cancelled: bool) -> PrepareStepView {
    if p.todo.len() == 0 {
        PrepareStepView::Done(p)
    } else if cancelled {
        PrepareStepView::Fail(error::ErrorView::Cancelled)
    } else if p.verify && !session::listable(p.todo[0].1) {
        PrepareStepView::Fail(
            error::ErrorView::Protocol(
                "в имени файла перевод строки: "@ + outside::debug_quoted(p.todo[0].1),
            ),
        )
    } else {
        PrepareStepView::Open(p)
    }
}

/// The file at hand is ready.
pub open spec fn file_ready(p: PrepareView, size: u64) -> PrepareView {
    PrepareView {
        todo: p.todo.skip(1),
        ready: p.ready.push((p.todo[0].0, p.todo[0].1, size)),
        ..p
    }
}

/// The file at hand could not be opened. What lies in a folder and may not be read is
/// passed over; any other failure is the end.
pub open spec fn open_failed(p: PrepareView, e: IoFailure, shown: Seq<char>) -> Result<
    PrepareView,
    error::ErrorView,
> {
    if !p.todo[0].2 && e.kind == IoKind::PermissionDenied {
        Ok(PrepareView { todo: p.todo.skip(1), skipped: p.skipped.push(shown), ..p })
    } else {
        Err(error::ErrorView::Io(shown + ": "@ + e.text@))
    }
}

/// The line when the other side cannot check.
pub const PLAIN_LINE: &'static str =
    "Получатель не подтвердил расширения (обычный TFTP-сервер или наш приём занят другой передачей): передача по RFC 1350, контрольная сумма не проверяется";

impl Checked {
    /// It is known whether the other side can check. What to do next, and the log line.
    pub fn probed(self, verify: bool, cancelled: bool) -> (r: Result<(Prepare, String), TftpError>)
        ensures
            match r {
                Ok((p, line)) => {
                    &&& !cancelled
                    &&& p.wf()
                    &&& p@ == (PrepareView {
                        verify,
                        todo: self@.files,
                        ready: Seq::empty(),
                        skipped: self@.skipped,
                        contents: Seq::empty(),
                    })
                    &&& line@ == if verify {
                        "Считаю общую контрольную сумму (файлов: "@ + text::dec(self@.files.len())
                            + ")…"@
                    } else {
                        PLAIN_LINE@
                    }
                },
                Err(e) => cancelled && e@ == error::ErrorView::Cancelled,
            },
    {
        if cancelled {
            return Err(TftpError::Cancelled);
        }
        let line = if verify {
            let mut m = "Считаю общую контрольную сумму (файлов: ".to_owned();
            text::push_dec(&mut m, self.files.len() as u64);
            m.append(")…");
            m
        } else {
            PLAIN_LINE.to_owned()
        };
        let core = Core {
            verify,
            files: self.files,
            next: 0,
            list: String::new(),
            ready: Vec::new(),
            skipped: self.skipped,
            contents: Ghost(Seq::empty()),
        };
        proof {
            assert(ready_views(core.ready@) =~= Seq::empty());
            assert(name_sizes(ready_views(core.ready@)) =~= Seq::empty());
            assert(session::list_of(Seq::empty()) =~= Seq::empty());
            assert(core.view().todo =~= self@.files);
            assert(core.list@ =~= session::list_lines(name_sizes(ready_views(core.ready@))));
        }
        let p = Prepare { core, hashing: Hashing::new() };
        assert(session::feed_all(Seq::empty()) =~= Seq::empty());
        Ok((p, line))
    }
}

impl Prepare {
    /// The hash and the list agree with what was read.
    pub closed spec fn wf(&self) -> bool {
        &&& self.core.wf()
        &&& self.core.verify ==> self.hashing@ == session::feed_all(self.core.contents@)
    }

    /// The next file.
    pub fn next(self, cancelled: bool) -> (r: PrepareStep)
        requires
            self.wf(),
        ensures
            r@ == prepare_next(self@, cancelled),
            match r {
                PrepareStep::Open(o) => o.wf(),
                PrepareStep::Done(p) => p.wf(),
                PrepareStep::Fail(_) => true,
            },
    {
        if self.core.next >= self.core.files.len() {
            return PrepareStep::Done(self);
        }
        assert(self@.todo[0] == self.core.files@[self.core.next as int]@);
        if cancelled {
            return PrepareStep::Fail(TftpError::Cancelled);
        }
        let file = &self.core.files[self.core.next];
        if self.core.verify && !is_listable(file.name.as_str()) {
            let mut m = "в имени файла перевод строки: ".to_owned();
            m.append(outside::quote_debug(file.name.as_str()).as_str());
            return PrepareStep::Fail(TftpError::Protocol(m));
        }
        PrepareStep::Open(Opening { core: self.core, hashing: self.hashing })
    }
}

fn is_listable(name: &str) -> (r: bool)
    ensures
        r == session::listable(name@),
{
    let v = text::chars_of(name);
    proof {
        text::lemma_find(name@, '\n');
        text::lemma_find(name@, '\r');
    }
    let lf: usize = text::find_char(&v, '\n');
    let cr: usize = text::find_char(&v, '\r');
    proof {
        if lf < v.len() {
            assert(name@[lf as int] == '\n');
        }
        if cr < v.len() {
            assert(name@[cr as int] == '\r');
        }
    }
    lf == v.len() && cr == v.len()
}

/// The file could not be read to its end: because the user stopped it, or for another reason.
pub fn read_failed(cancelled: bool, e: &IoFailure, shown: &str) -> (r: TftpError)
    ensures
        r@ == if cancelled {
            error::ErrorView::Cancelled
        } else {
            error::ErrorView::Io(shown@ + ": "@ + e.text@)
        },
{
    if cancelled {
        TftpError::Cancelled
    } else {
        error::io_with_path(e.text.as_str(), shown)
    }
}

impl Core {
    proof fn lemma_ready(&self, id: u64, name: Seq<char>, size: u64, contents: Seq<u8>)
        requires
            self.wf(),
            size == transfer::counted(0, contents.len()),
            session::listable(name),
            self.verify,
        ensures
            ({
                let now = ready_views(self.ready@).push((id, name, size));
                let read = self.contents@.push((name, contents));
                &&& name_sizes(now) == session::list_of(read)
                &&& session::list_lines(name_sizes(now)) == self.list@ + session::list_line(
                    size,
                    name,
                )
                &&& forall|i: int|
                    0 <= i < read.len() ==> session::listable((#[trigger] read[i]).0)
            }),
    {
        let before = ready_views(self.ready@);
        let now = before.push((id, name, size));
        let read = self.contents@.push((name, contents));
        assert(name_sizes(now) =~= name_sizes(before).push((name, size)));
        assert(session::list_of(read) =~= session::list_of(self.contents@).push((name, size)));
        assert(name_sizes(now).drop_last() =~= name_sizes(before));
        assert forall|i: int| 0 <= i < read.len() implies session::listable(
            (#[trigger] read[i]).0,
        ) by {
            if i < self.contents@.len() {
                assert(read[i] == self.contents@[i]);
            }
        }
    }

    /// The file at hand is ready.
    fn file_done(&mut self, size: u64, contents: Ghost<Seq<u8>>)
        requires
            old(self).wf(),
            old(self).view().todo.len() > 0,
            old(self).verify ==> session::listable(old(self).view().todo[0].1) && size
                == transfer::counted(0, contents@.len()),
        ensures
            final(self).wf(),
            final(self).verify == old(self).verify,
            final(self).view() == (PrepareView {
                contents: if old(self).verify {
                    old(self).view().contents.push((old(self).view().todo[0].1, contents@))
                } else {
                    old(self).view().contents
                },
                ..file_ready(old(self).view(), size)
            }),
    {
        let ghost v = self.view();
        let ghost before = *self;
        assert(v.todo[0] == self.files@[self.next as int]@);
        let id: u64 = self.files[self.next].id;
        let name = self.files[self.next].name.clone();
        if self.verify {
            proof {
                self.lemma_ready(id, name@, size, contents@);
                self.contents@ = self.contents@.push((name@, contents@));
            }
            session::push_list_line(&mut self.list, size, name.as_str());
        }
        self.ready.push(ReadyFile { id, name, size });
        self.next = self.next + 1;
        proof {
            assert(ready_views(self.ready@) =~= v.ready.push((id, name@, size)));
            assert(self.view().todo =~= v.todo.skip(1));
        }
    }
}

impl Opening {
    /// There is a file at hand, and its name can stand in the list.
    pub closed spec fn wf(&self) -> bool {
        &&& self.core.wf()
        &&& self.core.verify ==> self.hashing@ == session::feed_all(self.core.contents@)
        &&& self.core.view().todo.len() > 0
        &&& self.core.verify ==> session::listable(self.core.view().todo[0].1)
    }

    /// The number of the path of the file at hand.
    pub fn path(&self) -> (r: u64)
        requires
            self.wf(),
        ensures
            r == self@.todo[0].0,
    {
        assert(self@.todo[0] == self.core.files@[self.core.next as int]@);
        self.core.files[self.core.next].id
    }

    /// Whether the file at hand is to be read; if not, only its size matters.
    pub fn must_read(&self) -> (r: bool)
        ensures
            r == self@.verify,
    {
        self.core.verify
    }

    /// The file could not be opened.
    pub fn failed(self, e: &IoFailure, shown: &str) -> (r: Result<Prepare, TftpError>)
        requires
            self.wf(),
        ensures
            match open_failed(self@, *e, shown@) {
                Ok(p) => r is Ok && r->Ok_0@ == p && r->Ok_0.wf(),
                Err(f) => r is Err && r->Err_0@ == f,
            },
    {
        let ghost v = self@;
        assert(v.todo[0] == self.core.files@[self.core.next as int]@);
        let mut core = self.core;
        if !core.files[core.next].explicit && e.kind == IoKind::PermissionDenied {
            text::push_text(&mut core.skipped, shown.to_owned());
            core.next = core.next + 1;
            assert(core.view().todo =~= v.todo.skip(1));
            return Ok(Prepare { core, hashing: self.hashing });
        }
        Err(error::io_with_path(e.text.as_str(), shown))
    }

    /// The size of the file is known, or not.
    pub fn sized(self, size: Result<u64, IoFailure>, shown: &str) -> (r: Result<
        Prepare,
        TftpError,
    >)
        requires
            self.wf(),
            !self@.verify,
        ensures
            match size {
                Ok(n) => r is Ok && r->Ok_0@ == file_ready(self@, n) && r->Ok_0.wf(),
                Err(e) => r is Err && r->Err_0@ == error::ErrorView::Io(
                    shown@ + ": "@ + e.text@,
                ),
            },
    {
        match size {
            Ok(n) => {
                let mut core = self.core;
                core.file_done(n, Ghost(Seq::empty()));
                Ok(Prepare { core, hashing: self.hashing })
            },
            Err(e) => Err(error::io_with_path(e.text.as_str(), shown)),
        }
    }

    /// The file is open and is to be read.
    pub fn read(self) -> (r: Reading)
        requires
            self.wf(),
            self@.verify,
        ensures
            r.wf(),
            r@ == (ReadingView { prepare: self@, bytes: Seq::empty() }),
    {
        assert(self@.todo[0] == self.core.files@[self.core.next as int]@);
        let core = self.core;
        let feeding = self.hashing.feed_reader(core.files[core.next].name.as_str());
        let r = Reading { core, feeding, bytes: Ghost(Seq::empty()) };
        assert(r.feeding.fed() =~= session::feed_all(r.core.contents@) + session::feed_name(
            r.core.view().todo[0].1,
        ) + Seq::<u8>::empty());
        r
    }
}

impl Reading {
    /// What was read so far has been hashed.
    pub closed spec fn wf(&self) -> bool {
        &&& self.core.wf()
        &&& self.core.verify
        &&& self.core.view().todo.len() > 0
        &&& session::listable(self.core.view().todo[0].1)
        &&& self.feeding.fed() == session::feed_all(self.core.contents@) + session::feed_name(
            self.core.view().todo[0].1,
        ) + self.bytes@
        &&& self.feeding.read() == transfer::counted(0, self.bytes@.len())
    }

    /// Takes the next piece of the file.
    pub fn chunk(&mut self, bytes: &[u8])
        requires
            old(self).wf(),
        ensures
            final(self).wf(),
            final(self)@ == (ReadingView { bytes: old(self)@.bytes + bytes@, ..old(self)@ }),
    {
        let ghost name = self.core.view().todo[0].1;
        proof {
            session::law_feeding_pieces(
                session::feed_all(self.core.contents@),
                name,
                self.bytes@,
                bytes@,
            );
            self.bytes@ = self.bytes@ + bytes@;
        }
        self.feeding.chunk(bytes);
    }

    /// The file has been read to its end.
    pub fn finish(self) -> (r: Prepare)
        requires
            self.wf(),
        ensures
            r.wf(),
            r@ == (PrepareView {
                contents: self@.prepare.contents.push(
                    (self@.prepare.todo[0].1, self@.bytes),
                ),
                ..file_ready(self@.prepare, transfer::counted(0, self@.bytes.len()))
            }),
    {
        let ghost before = self.core.contents@;
        let ghost name = self.core.view().todo[0].1;
        let ghost bytes = self.bytes@;
        let mut core = self.core;
        let (hashing, size) = self.feeding.finish();
        core.file_done(size, self.bytes);
        proof {
            session::law_feeding_pieces(session::feed_all(before), name, bytes, Seq::empty());
            let now = before.push((name, bytes));
            assert(now.drop_last() =~= before);
            assert(hashing@ =~= session::feed_all(now));
        }
        Prepare { core, hashing }
    }
}

// ---------------------------------------------------------------- sending
/// What is to be sent, and how far that has come.
pub struct Sending {
    verify: bool,
    /// The list that goes ahead, until it has arrived.
    list: Option<Vec<u8>>,
    files: Vec<ReadyFile>,
    next: usize,
    /// What the files before the one at hand amount to, and what all do.
    base: u64,
    total: u64,
    /// How many could not be read.
    skipped: usize,
}

#[verifier::ext_equal]
pub struct SendingView {
    /// Whether the other side can check.
    pub verify: bool,
    /// The list that goes ahead, until it has arrived.
    pub list: Option<Seq<u8>>,
    pub files: Seq<(u64, Seq<char>, u64)>,
    /// How many files have arrived.
    pub next: nat,
    pub skipped: nat,
}

impl View for Sending {
    type V = SendingView;

    closed spec fn view(&self) -> SendingView {
        SendingView {
            verify: self.verify,
            list: transfer::packet_view(self.list),
            files: ready_views(self.files@),
            next: self.next as nat,
            skipped: self.skipped as nat,
        }
    }
}

/// What the first `n` files amount to, modulo 2^64.
pub open spec fn amount(files: Seq<(u64, Seq<char>, u64)>, n: int) -> u64 {
    session::size_sum(name_sizes(files), n)
}

/// The lines about what could not be read.
pub open spec fn skipped_lines(skipped: Seq<Seq<char>>) -> Seq<Seq<char>> {
    skipped.map_values(|p: Seq<char>| "Пропущено (нет доступа): "@ + p)
}

/// The list that goes ahead, with the hash of everything that was read.
pub open spec fn manifest(contents: Seq<(Seq<char>, Seq<u8>)>) -> Seq<char> {
    session::manifest_text(
        outside::blake3_hex(session::feed_all(contents)),
        session::list_of(contents),
    )
}

/// The lines when the list goes out.
pub open spec fn manifest_lines(hash: Seq<char>) -> Seq<Seq<char>> {
    seq![
        "Общая контрольная сумма: "@ + text::head(hash, 16) + "…"@,
        "→ отправляю контрольную сумму получателю"@,
    ]
}

fn skipped_report(skipped: &Vec<String>) -> (r: Vec<String>)
    ensures
        text::texts(r@) == skipped_lines(text::texts(skipped@)),
{
    let mut lines: Vec<String> = Vec::new();
    let mut i: usize = 0;
    let ghost all = text::texts(skipped@);
    assert(text::texts(lines@) =~= skipped_lines(all.take(0)));
    while i < skipped.len()
        invariant
            i <= skipped.len(),
            all == text::texts(skipped@),
            text::texts(lines@) == skipped_lines(all.take(i as int)),
        decreases skipped.len() - i,
    {
        let mut m = "Пропущено (нет доступа): ".to_owned();
        m.append(skipped[i].as_str());
        assert(all[i as int] == skipped@[i as int]@);
        text::push_text(&mut lines, m);
        i = i + 1;
        assert(text::texts(lines@) =~= skipped_lines(all.take(i as int)));
    }
    assert(all.take(i as int) =~= all);
    lines
}

fn sum_files(files: &Vec<ReadyFile>) -> (r: u64)
    ensures
        r == amount(ready_views(files@), files@.len() as int),
{
    let mut sum: u64 = 0;
    let mut i: usize = 0;
    while i < files.len()
        invariant
            i <= files.len(),
            sum == amount(ready_views(files@), i as int),
        decreases files.len() - i,
    {
        assert(name_sizes(ready_views(files@))[i as int].1 == files@[i as int].size);
        sum = sum.wrapping_add(files[i].size);
        i = i + 1;
    }
    sum
}

/// What follows when everything has been prepared.
pub struct Prepared {
    /// The log lines.
    pub lines: Vec<String>,
    /// What to send, or why nothing is sent.
    pub next: Result<Sending, TftpError>,
}

impl Prepare {
    /// All files have been looked into.
    pub fn finish(self) -> (r: Prepared)
        requires
            self.wf(),
        ensures
            match r.next {
                Ok(s) => {
                    &&& self@.ready.len() > 0
                    &&& s.wf()
                    &&& s@ == (SendingView {
                        verify: self@.verify,
                        list: if self@.verify {
                            Some(encode_utf8(manifest(self@.contents)))
                        } else {
                            None
                        },
                        files: self@.ready,
                        next: 0,
                        skipped: self@.skipped.len(),
                    })
                    &&& self@.verify ==> {
                        &&& name_sizes(self@.ready) == session::list_of(self@.contents)
                        &&& session::is_manifest(
                            outside::blake3_hex(session::feed_all(self@.contents)),
                            session::list_of(self@.contents),
                        )
                    }
                },
                Err(e) => self@.ready.len() == 0 && e@ == error::ErrorView::Protocol(
                    "нет файлов, доступных для чтения"@,
                ),
            },
            text::texts(r.lines@) == skipped_lines(self@.skipped) + (if self@.ready.len() > 0
                && self@.verify {
                manifest_lines(outside::blake3_hex(session::feed_all(self@.contents)))
            } else {
                Seq::empty()
            }),
    {
        let ghost v = self@;
        let core = self.core;
        let mut lines = skipped_report(&core.skipped);
        let ghost first = text::texts(lines@);
        if core.ready.len() == 0 {
            assert(first + Seq::<Seq<char>>::empty() =~= first);
            return Prepared { lines, next: Err(error::protocol("нет файлов, доступных для чтения")) };
        }
        let list = if core.verify {
            let hash = self.hashing.hex();
            let mut m = "Общая контрольная сумма: ".to_owned();
            m.append(text::head_text(hash.as_str(), 16).as_str());
            m.append("…");
            text::push_text(&mut lines, m);
            text::push_text(&mut lines, "→ отправляю контрольную сумму получателю".to_owned());
            assert(text::texts(lines@) =~= first + manifest_lines(hash@));
            let mut t = hash.clone();
            t.append("\n");
            t.append(core.list.as_str());
            proof {
                let files = session::list_of(v.contents);
                assert forall|i: int| 0 <= i < files.len() implies session::listable(
                    (#[trigger] files[i]).0,
                ) by {
                    assert(session::listable(v.contents[i].0));
                }
                assert(files.len() == v.ready.len());
            }
            Some(slice_to_vec(t.as_str().as_bytes()))
        } else {
            assert(first + Seq::<Seq<char>>::empty() =~= first);
            None
        };
        let total: u64 = sum_files(&core.ready);
        let s = Sending {
            verify: core.verify,
            list,
            files: core.ready,
            next: 0,
            base: 0,
            total,
            skipped: core.skipped.len(),
        };
        Prepared { lines, next: Ok(s) }
    }
}

/// The line of a file, where there are several.
pub open spec fn file_line(i: nat, count: nat, name: Seq<char>) -> Option<Seq<char>> {
    if count > 1 {
        Some("["@ + text::dec(i + 1) + "/"@ + text::dec(count) + "] "@ + name)
    } else {
        None
    }
}

/// What is said at the end about what could not be read.
pub open spec fn skipped_note(n: nat) -> Seq<char> {
    if n == 0 {
        Seq::empty()
    } else {
        " (пропущено без доступа: "@ + text::dec(n) + ")"@
    }
}

/// What the answer of the other side means: its lines.
pub open spec fn outcome(s: SendingView, lines: Seq<Seq<char>>) -> Result<
    Seq<char>,
    error::ErrorView,
> {
    if lines.len() > 0 && lines[0] == "OK"@ {
        Ok(
            "✓ Контрольная сумма совпала, отправлено файлов: "@ + text::dec(s.files.len())
                + skipped_note(s.skipped),
        )
    } else if lines.len() > 0 && lines[0] == "FAIL"@ {
        Err(
            error::ErrorView::Protocol(
                "проверка у получателя не пройдена: "@ + text::joined(lines.skip(1), ", "@),
            ),
        )
    } else {
        Err(error::ErrorView::Protocol("непонятный ответ получателя о проверке"@))
    }
}

/// The text or the failure in a result.
pub open spec fn told(r: Result<String, TftpError>) -> Result<Seq<char>, error::ErrorView> {
    match r {
        Ok(m) => Ok(m@),
        Err(e) => Err(e@),
    }
}

/// What goes to the other side next.
#[derive(Debug)]
pub enum NextRequest {
    /// Write this list, under this name and in this mode; then go on with `written`.
    List(String, Mode, Vec<u8>),
    /// Write the file with this path number, under this name and in this mode; then go on
    /// with `written`. A log line may announce it.
    File(u64, String, Mode, Option<String>),
    /// Read the outcome of the check under this name; then go on with `result_read`. The log
    /// line that announces it.
    Outcome(String, String),
    /// Nothing more: everything has been sent. The last log line.
    Done(String),
}

pub enum NextRequestView {
    List(Seq<char>, Mode, Seq<u8>),
    File(u64, Seq<char>, Mode, Option<Seq<char>>),
    Outcome(Seq<char>, Seq<char>),
    Done(Seq<char>),
}

impl View for NextRequest {
    type V = NextRequestView;

    open spec fn view(&self) -> NextRequestView {
        match self {
            NextRequest::List(n, m, b) => NextRequestView::List(n@, *m, b@),
            NextRequest::File(id, n, m, l) => NextRequestView::File(
                *id,
                n@,
                *m,
                discover::text_view(*l),
            ),
            NextRequest::Outcome(n, l) => NextRequestView::Outcome(n@, l@),
            NextRequest::Done(l) => NextRequestView::Done(l@),
        }
    }
}

/// The request that writes file number `i`.
pub open spec fn file_request(s: SendingView, i: int) -> NextRequestView {
    NextRequestView::File(
        s.files[i].0,
        s.files[i].1,
        Mode::Octet,
        file_line(i as nat, s.files.len(), s.files[i].1),
    )
}

/// The question for the outcome of the check.
pub open spec fn outcome_request() -> NextRequestView {
    NextRequestView::Outcome(RESULT_NAME@, "→ жду от получателя результат проверки…"@)
}

/// The log line at the end where nothing is checked.
pub open spec fn unchecked_line(s: SendingView) -> Seq<char> {
    "✓ Отправлено файлов: "@ + text::dec(s.files.len()) + skipped_note(s.skipped)
        + "; целостность не проверялась"@
}

/// Whether everything has arrived on the other side.
pub open spec fn all_sent(s: SendingView) -> bool {
    s.list is None && s.next >= s.files.len()
}

/// What goes to the other side next: the list ahead of all files, then the files in their
/// order, then, where the other side can check, the question for the outcome.
pub open spec fn request_after(s: SendingView) -> NextRequestView {
    match s.list {
        Some(b) => NextRequestView::List(MANIFEST_NAME@, Mode::Octet, b),
        None => if s.next < s.files.len() {
            file_request(s, s.next as int)
        } else if s.verify {
            outcome_request()
        } else {
            NextRequestView::Done(unchecked_line(s))
        },
    }
}

/// What was to be written has arrived.
pub open spec fn arrived(s: SendingView) -> SendingView {
    if s.list is Some {
        SendingView { list: None, ..s }
    } else {
        SendingView { next: s.next + 1, ..s }
    }
}

impl Sending {
    /// The sums agree with the files.
    pub closed spec fn wf(&self) -> bool {
        &&& self.next <= self.files.len()
        &&& self.base == amount(ready_views(self.files@), self.next as int)
        &&& self.total == amount(ready_views(self.files@), self.files@.len() as int)
    }

    /// What goes to the other side next.
    pub fn next_request(&self) -> (r: NextRequest)
        requires
            self.wf(),
        ensures
            r@ == request_after(self@),
    {
        if let Some(b) = &self.list {
            return NextRequest::List(MANIFEST_NAME.to_owned(), Mode::Octet, b.clone());
        }
        if self.next < self.files.len() {
            let f = &self.files[self.next];
            assert(self@.files[self@.next as int] == f@);
            return NextRequest::File(f.id, f.name.clone(), Mode::Octet, self.line_of_file());
        }
        if self.verify {
            NextRequest::Outcome(
                RESULT_NAME.to_owned(),
                "→ жду от получателя результат проверки…".to_owned(),
            )
        } else {
            let mut m = "✓ Отправлено файлов: ".to_owned();
            text::push_dec(&mut m, self.files.len() as u64);
            m.append(self.note().as_str());
            m.append("; целостность не проверялась");
            NextRequest::Done(m)
        }
    }

    /// The line of the file at hand, where there are several.
    fn line_of_file(&self) -> (r: Option<String>)
        requires
            self.next < self.files.len(),
        ensures
            discover::text_view(r) == file_line(
                self@.next,
                self@.files.len(),
                self@.files[self@.next as int].1,
            ),
    {
        let f = &self.files[self.next];
        assert(self@.files[self@.next as int] == f@);
        if self.files.len() <= 1 {
            return None;
        }
        let mut m = "[".to_owned();
        text::push_dec(&mut m, self.next as u64 + 1);
        m.append("/");
        text::push_dec(&mut m, self.files.len() as u64);
        m.append("] ");
        m.append(f.name.as_str());
        Some(m)
    }

    /// The progress to report when `sent` bytes of the file at hand have arrived.
    pub fn progress(&self, sent: u64) -> (r: (u64, Option<u64>))
        requires
            self.wf(),
        ensures
            r.0 == transfer::counted(amount(self@.files, self@.next as int), sent as nat),
            r.1 == Some(amount(self@.files, self@.files.len() as int)),
    {
        (self.base.wrapping_add(sent), Some(self.total))
    }

    /// Writing the list or the file at hand has ended. A failure ends everything.
    pub fn written(self, res: Result<(), TftpError>) -> (r: Result<Sending, TftpError>)
        requires
            self.wf(),
            !all_sent(self@),
        ensures
            match res {
                Ok(_) => r is Ok && r->Ok_0.wf() && r->Ok_0@ == arrived(self@),
                Err(e) => r is Err && r->Err_0@ == e@,
            },
    {
        if let Err(e) = res {
            return Err(e);
        }
        let mut s = self;
        if s.list.is_some() {
            s.list = None;
        } else {
            assert(s.next < s.files.len());
            assert(name_sizes(ready_views(s.files@))[s.next as int].1
                == s.files@[s.next as int].size);
            s.base = s.base.wrapping_add(s.files[s.next].size);
            s.next = s.next + 1;
        }
        Ok(s)
    }

    fn note(&self) -> (m: String)
        ensures
            m@ == skipped_note(self@.skipped),
    {
        if self.skipped == 0 {
            return String::new();
        }
        let mut m = " (пропущено без доступа: ".to_owned();
        text::push_dec(&mut m, self.skipped as u64);
        m.append(")");
        m
    }

    /// The other side answered with this text. `Ok` holds the last log line.
    pub fn answer(&self, body: &str) -> (r: Result<String, TftpError>)
        ensures
            told(r) == outcome(self@, text::lines(body@)),
    {
        let lines = text::split_lines(body);
        let ghost lv = text::texts(lines@);
        if lines.len() > 0 {
            assert(lv[0] == lines@[0]@);
            if text::same_text(lines[0].as_str(), "OK") {
                let mut m = "✓ Контрольная сумма совпала, отправлено файлов: ".to_owned();
                text::push_dec(&mut m, self.files.len() as u64);
                m.append(self.note().as_str());
                return Ok(m);
            }
            if text::same_text(lines[0].as_str(), "FAIL") {
                let mut m = "проверка у получателя не пройдена: ".to_owned();
                m.append(text::join_from(&lines, 1, ", ").as_str());
                return Err(TftpError::Protocol(m));
            }
        }
        Err(error::protocol("непонятный ответ получателя о проверке"))
    }

    /// Reading the outcome of the check has ended. `Ok` holds the last log line.
    pub fn result_read(&self, res: Result<Vec<u8>, TftpError>) -> (r: Result<String, TftpError>)
        requires
            all_sent(self@),
            self@.verify,
        ensures
            told(r) == match res {
                Ok(body) => outcome(self@, text::lines(outside::utf8_lossy(body@))),
                Err(TftpError::Cancelled) => Err(error::ErrorView::Cancelled),
                Err(e) => Err(
                    error::ErrorView::Protocol(
                        "не удалось получить от получателя результат проверки: "@
                            + error::error_text(e@),
                    ),
                ),
            },
            forall|s: Seq<char>|
                res is Ok && res->Ok_0@ == encode_utf8(s) ==> told(r) == #[trigger] outcome(
                    self@,
                    text::lines(s),
                ),
    {
        match res {
            Ok(body) => {
                let t = outside::decode_lossy(&body);
                proof {
                    assert forall|s: Seq<char>| body@ == encode_utf8(s) implies t@ == s by {
                        encode_utf8_valid_utf8(s);
                        encode_utf8_decode_utf8(s);
                    }
                }
                self.answer(t.as_str())
            },
            Err(TftpError::Cancelled) => Err(TftpError::Cancelled),
            Err(e) => {
                let mut m = "не удалось получить от получателя результат проверки: ".to_owned();
                m.append(e.message().as_str());
                Err(TftpError::Protocol(m))
            },
        }
    }
}

// ---------------------------------------------------------------- laws
/// The progress never jumps: the next file starts to count where the one before ended,
/// and when the last has arrived it is the total.
pub proof fn law_progress_is_continuous(files: Seq<(u64, Seq<char>, u64)>, i: int)
    requires
        0 <= i < files.len(),
    ensures
        amount(files, i + 1) == transfer::counted(amount(files, i), files[i].2 as nat),
        amount(files, 0) == 0,
{
    assert(name_sizes(files)[i].1 == files[i].2);
}

/// How many lists and files are still to be written.
pub open spec fn left_to_write(s: SendingView) -> int {
    s.files.len() - s.next + (if s.list is Some {
        1int
    } else {
        0
    })
}

/// Everything that goes to the other side from here on, as long as all of it arrives.
pub open spec fn requests(s: SendingView) -> Seq<NextRequestView>
    decreases left_to_write(s),
{
    if left_to_write(s) > 0 {
        seq![request_after(s)] + requests(arrived(s))
    } else if s.verify {
        seq![outcome_request()]
    } else {
        Seq::empty()
    }
}

/// The requests come in this order: the list, where it is still to go; the files one after
/// another; and at the very end, where the other side can check, the question for the
/// outcome. There are no others.
pub proof fn law_requests_come_in_order(s: SendingView)
    requires
        s.next <= s.files.len(),
    ensures
        requests(s) == (match s.list {
            Some(b) => seq![NextRequestView::List(MANIFEST_NAME@, Mode::Octet, b)],
            None => Seq::empty(),
        }) + Seq::new(
            (s.files.len() - s.next) as nat,
            |i: int| file_request(s, s.next + i),
        ) + (if s.verify {
            seq![outcome_request()]
        } else {
            Seq::empty()
        }),
    decreases left_to_write(s),
{
    let files = Seq::new((s.files.len() - s.next) as nat, |i: int| file_request(s, s.next + i));
    if !all_sent(s) {
        let t = arrived(s);
        law_requests_come_in_order(t);
        let rest = Seq::new((t.files.len() - t.next) as nat, |i: int| file_request(t, t.next + i));
        if s.list is Some {
            assert(rest =~= files);
        } else {
            assert(files =~= seq![file_request(s, s.next as int)] + rest);
        }
    }
    assert(requests(s) =~= (match s.list {
        Some(b) => seq![NextRequestView::List(MANIFEST_NAME@, Mode::Octet, b)],
        None => Seq::empty(),
    }) + files + (if s.verify {
        seq![outcome_request()]
    } else {
        Seq::empty()
    }));
}

/// The answer of a receiving side is understood: sending succeeds if and only if the check
/// on the other side did.
pub proof fn law_answer_is_understood(s: SendingView, t: session::SessionView)
    ensures
        outcome(s, text::lines(session::report(t))) is Ok <==> session::passed(t.verdict),
{
    reveal_strlit("OK\n");
    reveal_strlit("OK");
    reveal_strlit("FAIL\n");
    reveal_strlit("FAIL");
    let r = session::report(t);
    session::law_report_tells_the_outcome(t);
    let head = if session::passed(t.verdict) {
        "OK"@
    } else {
        "FAIL"@
    };
    let begin = if session::passed(t.verdict) {
        "OK\n"@
    } else {
        "FAIL\n"@
    };
    let rest = r.skip(begin.len() as int);
    assert(begin =~= head + seq!['\n']);
    assert(r =~= begin + rest);
    assert(!head.contains('\n') && !head.contains('\r'));
    text::lemma_first_line(head, rest);
    assert(text::lines(r)[0] == head);
    assert("OK"@.len() != "FAIL"@.len());
}

/// From end to end: when the list that was sent is taken by the receiving side, and the
/// files come in as they were read, the receiving side's check succeeds and its answer
/// makes sending a success. When what comes in hashes otherwise, it fails.
pub proof fn law_check_from_end_to_end(
    s: SendingView,
    read: Seq<(Seq<char>, Seq<u8>)>,
    came: Seq<(Seq<char>, Seq<u8>)>,
)
    requires
        session::is_manifest(
            outside::blake3_hex(session::feed_all(read)),
            session::list_of(read),
        ),
        session::list_of(came) == session::list_of(read),
    ensures
        ({
            let hash = outside::blake3_hex(session::feed_all(read));
            let taken = session::manifest_of(text::lines(manifest(read)), hash);
            let start = session::fresh(hash, session::list_of(read));
            &&& taken == Some((hash, session::list_of(read)))
            &&& came == read ==> outcome(
                s,
                text::lines(session::report(session::after_files(start, came))),
            ) is Ok
            &&& outside::blake3_hex(session::feed_all(came)) != hash ==> outcome(
                s,
                text::lines(session::report(session::after_files(start, came))),
            ) is Err
        }),
{
    let hash = outside::blake3_hex(session::feed_all(read));
    let start = session::fresh(hash, session::list_of(read));
    session::law_manifest_roundtrip(hash, session::list_of(read));
    encode_utf8_decode_utf8(manifest(read));
    assert(session::list_of(read).len() == read.len());
    assert(session::list_of(came).len() == came.len());
    session::law_intact_transfer_passes(read, 0);
    if outside::blake3_hex(session::feed_all(came)) != hash {
        session::law_damage_is_detected(hash, came);
    }
    law_answer_is_understood(s, session::after_files(start, came));
}

// ---------------------------------------------------------------- what is sent
/// The i-th file that goes out is the i-th of the list, whoever it goes to: read from its own
/// path, under its own name, byte for byte. Where there are several, the log counts them.
pub proof fn law_each_file_under_its_own_name(s: SendingView, i: int)
    requires
        s.next <= i < s.files.len(),
    ensures
        ({
            let ahead: int = if s.list is Some {
                1
            } else {
                0
            };
            requests(s)[ahead + i - s.next] matches NextRequestView::File(id, name, mode, line) && {
                &&& id == s.files[i].0
                &&& name == s.files[i].1
                &&& mode == Mode::Octet
                &&& line == if s.files.len() > 1 {
                    Some(
                        "["@ + text::dec((i + 1) as nat) + "/"@ + text::dec(s.files.len()) + "] "@
                            + s.files[i].1,
                    )
                } else {
                    None
                }
            }
        }),
{
    law_requests_come_in_order(s);
}

/// What goes out next: the list as long as it has not arrived, under its own name; then the
/// next file; then the question for the outcome, if the other side can check; then nothing.
pub proof fn law_what_goes_out_next(s: SendingView)
    ensures
        s.list matches Some(b) ==> request_after(s) == NextRequestView::List(
            "tftp:manifest:blake3"@,
            Mode::Octet,
            b,
        ),
        s.list is None && s.next < s.files.len() ==> (request_after(s) matches NextRequestView::File(
            id,
            name,
            mode,
            _,
        ) && id == s.files[s.next as int].0 && name == s.files[s.next as int].1 && mode
            == Mode::Octet),
        s.list is None && s.next >= s.files.len() && s.verify ==> request_after(s)
            == NextRequestView::Outcome(
            "tftp:result"@,
            "→ жду от получателя результат проверки…"@,
        ),
        s.list is None && s.next >= s.files.len() && !s.verify ==> request_after(s)
            == NextRequestView::Done(
            "✓ Отправлено файлов: "@ + text::dec(s.files.len()) + skipped_note(s.skipped)
                + "; целостность не проверялась"@,
        ),
        all_sent(s) <==> s.list is None && s.next >= s.files.len(),
        s.list is Some ==> arrived(s) == (SendingView { list: None, ..s }),
        s.list is None ==> arrived(s) == (SendingView { next: s.next + 1, ..s }),
        s.skipped == 0 ==> skipped_note(s.skipped) == Seq::<char>::empty(),
        s.skipped > 0 ==> skipped_note(s.skipped) == " (пропущено без доступа: "@ + text::dec(
            s.skipped,
        ) + ")"@,
{
}

/// What is chosen is sent: a file under its own name, a folder with all its files under
/// theirs, in the order of the choice; and what was skipped in a folder is remembered. A path
/// that does not exist ends everything.
pub proof fn law_what_is_chosen_is_sent(
    p: PlanView,
    path: PathView,
    files: Vec<Named>,
    skipped: Vec<String>,
    i: int,
)
    ensures
        looked(p, path, Chosen::File) == Ok::<_, error::ErrorView>(
            PlanView {
                files: p.files.push(
                    (
                        path.id,
                        match path.name {
                            Some(n) => n,
                            None => "file.bin"@,
                        },
                        true,
                    ),
                ),
                ..p
            },
        ),
        looked(p, path, Chosen::Folder(files, skipped)) matches Ok(q) && {
            &&& q.paths == p.paths
            &&& q.skipped == p.skipped + text::texts(skipped@)
            &&& q.files.len() == p.files.len() + files@.len()
            &&& 0 <= i < p.files.len() ==> q.files[i] == p.files[i]
            &&& 0 <= i < files@.len() ==> q.files[p.files.len() + i] == (
                files@[i].id,
                files@[i].name@,
                false,
            )
        },
        looked(p, path, Chosen::Missing) == Err::<PlanView, _>(
            error::ErrorView::Protocol("путь не существует: "@ + path.shown),
        ),
{
}

/// Everything that was found is sent, unless there is nothing at all, or two files would get
/// the same name: the first that repeats an earlier one is named.
pub proof fn law_what_can_be_sent(p: PlanView, j: int)
    ensures
        p.files.len() == 0 && p.skipped.len() == 0 ==> planned(p) == Err::<CheckedView, _>(
            error::ErrorView::Protocol("в выбранном нет файлов для отправки"@),
        ),
        0 <= j < p.files.len() && (exists|i: int|
            0 <= i < j && (#[trigger] p.files[i]).1 == p.files[j].1) && (forall|a: int, b: int|
            0 <= a < b < j ==> (#[trigger] p.files[a]).1 != (#[trigger] p.files[b]).1)
            ==> planned(p) == Err::<CheckedView, _>(
            error::ErrorView::Protocol(
                "два выбранных файла получили бы одно имя «"@ + p.files[j].1
                    + "» — отправьте их по отдельности"@,
            ),
        ),
        (p.files.len() > 0 || p.skipped.len() > 0) && (forall|a: int, b: int|
            0 <= a < b < p.files.len() ==> (#[trigger] p.files[a]).1 != (#[trigger] p.files[b]).1)
            ==> planned(p) == Ok::<_, error::ErrorView>(
            CheckedView { files: p.files, skipped: p.skipped },
        ),
{
    let names = names_of(p.files);
    assert forall|a: int| 0 <= a < names.len() implies #[trigger] names[a] == p.files[a].1 by {}
    lemma_first_repeat_is(names, 0);
    let i = first_repeat(names, 0);
    if i < names.len() {
        let a = choose|a: int| 0 <= a < i && #[trigger] names[a] == names[i];
        assert(p.files[a].1 == p.files[i].1);
    }
    if 0 <= j < p.files.len() && (exists|i: int|
        0 <= i < j && (#[trigger] p.files[i]).1 == p.files[j].1) && (forall|a: int, b: int|
        0 <= a < b < j ==> (#[trigger] p.files[a]).1 != (#[trigger] p.files[b]).1) {
        let a = choose|a: int| 0 <= a < j && (#[trigger] p.files[a]).1 == p.files[j].1;
        assert(names[a] == names[j]);
        assert(repeats(names, j));
        assert(i <= j);
        if i < j {
            let b = choose|b: int| 0 <= b < i && #[trigger] names[b] == names[i];
            assert(p.files[b].1 == p.files[i].1);
        }
    }
}

proof fn lemma_first_repeat_is(names: Seq<Seq<char>>, from: int)
    requires
        0 <= from <= names.len(),
    ensures
        from <= first_repeat(names, from) <= names.len(),
        first_repeat(names, from) < names.len() ==> repeats(names, first_repeat(names, from)),
        forall|k: int| from <= k < first_repeat(names, from) ==> !repeats(names, k),
    decreases names.len() - from,
{
    if from < names.len() && !repeats(names, from) {
        lemma_first_repeat_is(names, from + 1);
    }
}

/// The files are looked into one after the other. A stop ends that, and so does a name that
/// cannot stand in the list, where there is one.
pub proof fn law_files_are_looked_into(p: PrepareView, cancelled: bool)
    ensures
        p.todo.len() == 0 ==> prepare_next(p, cancelled) == PrepareStepView::Done(p),
        p.todo.len() > 0 && cancelled ==> prepare_next(p, cancelled) == PrepareStepView::Fail(
            error::ErrorView::Cancelled,
        ),
        p.todo.len() > 0 && !cancelled && p.verify && (p.todo[0].1.contains('\n')
            || p.todo[0].1.contains('\r')) ==> prepare_next(p, cancelled) == PrepareStepView::Fail(
            error::ErrorView::Protocol(
                "в имени файла перевод строки: "@ + outside::debug_quoted(p.todo[0].1),
            ),
        ),
        p.todo.len() > 0 && !cancelled && (!p.verify || (!p.todo[0].1.contains('\n')
            && !p.todo[0].1.contains('\r'))) ==> prepare_next(p, cancelled)
            == PrepareStepView::Open(p),
{
}

/// A file that can be read is ready under its own path, name and size. One that may not be
/// read is skipped and noted, if it was found in a folder; any other failure ends everything.
pub proof fn law_unreadable_files(p: PrepareView, size: u64, e: IoFailure, shown: Seq<char>)
    requires
        p.todo.len() > 0,
    ensures
        file_ready(p, size) == (PrepareView {
            todo: p.todo.skip(1),
            ready: p.ready.push((p.todo[0].0, p.todo[0].1, size)),
            ..p
        }),
        open_failed(p, e, shown) == if e.kind == IoKind::PermissionDenied && !p.todo[0].2 {
            Ok(PrepareView { todo: p.todo.skip(1), skipped: p.skipped.push(shown), ..p })
        } else {
            Err(error::ErrorView::Io(shown + ": "@ + e.text@))
        },
{
}

/// The list that goes ahead holds the hash over the names and contents of just the files
/// that go out, and their names and sizes; the log shows the start of the hash and what was
/// skipped.
pub proof fn law_list_is_of_the_files(
    contents: Seq<(Seq<char>, Seq<u8>)>,
    hash: Seq<char>,
    skipped: Seq<Seq<char>>,
    i: int,
)
    ensures
        manifest(contents) == outside::blake3_hex(session::feed_all(contents)) + "\n"@
            + session::list_lines(session::list_of(contents)),
        manifest_lines(hash) == seq![
            "Общая контрольная сумма: "@ + text::head(hash, 16) + "…"@,
            "→ отправляю контрольную сумму получателю"@,
        ],
        skipped_lines(skipped).len() == skipped.len(),
        0 <= i < skipped.len() ==> skipped_lines(skipped)[i] == "Пропущено (нет доступа): "@
            + skipped[i],
{
}

/// Only an answer whose first line says so is a success; one that says FAIL fails with what
/// follows, and any other is not understood.
pub proof fn law_what_an_answer_means(s: SendingView, lines: Seq<Seq<char>>)
    ensures
        lines.len() > 0 && lines[0] == "OK"@ ==> outcome(s, lines) == Ok::<_, error::ErrorView>(
            "✓ Контрольная сумма совпала, отправлено файлов: "@ + text::dec(s.files.len())
                + skipped_note(s.skipped),
        ),
        lines.len() > 0 && lines[0] == "FAIL"@ ==> outcome(s, lines) == Err::<Seq<char>, _>(
            error::ErrorView::Protocol(
                "проверка у получателя не пройдена: "@ + text::joined(lines.skip(1), ", "@),
            ),
        ),
        lines.len() == 0 || (lines[0] != "OK"@ && lines[0] != "FAIL"@) ==> outcome(s, lines)
            == Err::<Seq<char>, _>(
            error::ErrorView::Protocol("непонятный ответ получателя о проверке"@),
        ),
{
    reveal_strlit("OK");
    reveal_strlit("FAIL");
    assert("OK"@.len() != "FAIL"@.len());
}

/// The progress counts what arrived before and what has arrived of the file at hand.
pub proof fn law_sizes_are_added(files: Seq<(u64, Seq<char>, u64)>, n: int)
    requires
        0 <= n < files.len(),
    ensures
        amount(files, 0) == 0,
        amount(files, n + 1) as int == (amount(files, n) + files[n].2) % 0x1_0000_0000_0000_0000,
{
    assert(name_sizes(files)[n].1 == files[n].2);
}

} // verus!
