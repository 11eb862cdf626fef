//! Choosing files and folders in a window of our own: what a folder shows, and what
//! clicks select. Paths are known here by numbers; equal paths have equal numbers.
use crate::discover;
use crate::display;
use crate::outside;
use crate::sort;
use crate::sort::SortKey;
use crate::text;
use crate::wait::IoFailure;
use vstd::prelude::*;

verus! {

/// What is chosen.
#[derive(Clone, Copy, Debug, PartialEq, Eq, Structural)]
pub enum PickTarget {
    /// What to send: files and folders, several at a time.
    Send,
    /// Where incoming files go: one folder.
    RecvDir,
}

/// An entry of a folder as the system tells it.
#[derive(Debug)]
pub struct RawEntry {
    pub id: u64,
    pub name: String,
    /// What stands there, if that could be found out.
    pub meta: Option<Meta>,
}

/// What stands at a path, with links followed.
#[derive(Clone, Copy, Debug, PartialEq, Eq, Structural)]
pub struct Meta {
    pub is_dir: bool,
    pub is_file: bool,
    pub size: u64,
}

/// An entry that is shown.
#[derive(Debug)]
pub struct Entry {
    pub id: u64,
    pub name: String,
    pub is_dir: bool,
    pub size: u64,
}

#[verifier::ext_equal]
pub struct EntryView {
    pub id: u64,
    pub name: Seq<char>,
    pub is_dir: bool,
    pub size: u64,
}

impl View for Entry {
    type V = EntryView;

    open spec fn view(&self) -> EntryView {
        EntryView { id: self.id, name: self.name@, is_dir: self.is_dir, size: self.size }
    }
}

/// The entries as texts.
pub open spec fn entry_views(v: Seq<Entry>) -> Seq<EntryView> {
    v.map_values(|e: Entry| e@)
}

/// The window.
#[derive(Debug)]
pub struct Picker {
    pub target: PickTarget,
    /// The folder that is open: its number, and its path as text.
    pub dir: u64,
    pub dir_shown: String,
    pub path_input: String,
    /// What is selected in this folder.
    pub selected: Vec<u64>,
    /// The entry that was clicked last; a range starts there.
    pub anchor: Option<usize>,
    pub show_hidden: bool,
    pub entries: Vec<Entry>,
    pub error: Option<String>,
}

#[verifier::ext_equal]
pub struct PickerView {
    pub target: PickTarget,
    pub dir: u64,
    pub dir_shown: Seq<char>,
    pub path_input: Seq<char>,
    pub selected: Seq<u64>,
    pub anchor: Option<usize>,
    pub show_hidden: bool,
    pub entries: Seq<EntryView>,
    pub error: Option<Seq<char>>,
}

impl View for Picker {
    type V = PickerView;

    open spec fn view(&self) -> PickerView {
        PickerView {
            target: self.target,
            dir: self.dir,
            dir_shown: self.dir_shown@,
            path_input: self.path_input@,
            selected: self.selected@,
            anchor: self.anchor,
            show_hidden: self.show_hidden,
            entries: entry_views(self.entries@),
            error: discover::text_view(self.error),
        }
    }
}

// ---------------------------------------------------------------- what a folder shows
/// The entry that is shown for what the system tells; none for what is hidden, unknown,
/// neither file nor folder, or a file where only folders can be chosen.
pub open spec fn shown_entry(e: RawEntry, show_hidden: bool, only_dirs: bool) -> Option<EntryView> {
    if !show_hidden && e.name@.len() > 0 && e.name@[0] == '.' {
        None
    } else {
        match e.meta {
            None => None,
            Some(m) => if !m.is_dir && (only_dirs || !m.is_file) {
                None
            } else {
                Some(EntryView { id: e.id, name: e.name@, is_dir: m.is_dir, size: m.size })
            },
        }
    }
}

/// The entries that are shown, in the order in which the system tells them.
pub open spec fn shown_entries(v: Seq<RawEntry>, show_hidden: bool, only_dirs: bool) -> Seq<
    EntryView,
>
    decreases v.len(),
{
    if v.len() == 0 {
        Seq::empty()
    } else {
        let rest = shown_entries(v.drop_last(), show_hidden, only_dirs);
        match shown_entry(v.last(), show_hidden, only_dirs) {
            Some(e) => rest.push(e),
            None => rest,
        }
    }
}

/// Keys to sort entries by: folders before files, then names in lower case.
pub open spec fn entry_keys(v: Seq<EntryView>, lowered: Seq<Seq<char>>) -> Seq<(u8, Seq<char>)> {
    Seq::new(
        v.len(),
        |i: int|
            (
                if v[i].is_dir {
                    0u8
                } else {
                    1u8
                },
                lowered[i],
            ),
    )
}

/// The order of the entries by these keys.
pub open spec fn entry_order(v: Seq<EntryView>, lowered: Seq<Seq<char>>) -> Seq<usize> {
    choose|o: Seq<usize>| sort::sorts(entry_keys(v, lowered), 0, v.len() as int, o)
}

/// The entries in that order.
pub open spec fn arranged(v: Seq<EntryView>, lowered: Seq<Seq<char>>) -> Seq<EntryView> {
    entry_order(v, lowered).map_values(|i: usize| v[i as int])
}

/// The names of entries in lower case.
pub open spec fn lower_names(v: Seq<EntryView>) -> Seq<Seq<char>> {
    v.map_values(|e: EntryView| outside::lowercase(e.name))
}

/// The window when a folder has been opened.
pub open spec fn folder_opened(
    p: PickerView,
    dir: u64,
    shown: Seq<char>,
    raw: Seq<RawEntry>,
) -> PickerView {
    let entries = shown_entries(raw, p.show_hidden, p.target == PickTarget::RecvDir);
    PickerView {
        dir,
        dir_shown: shown,
        path_input: shown,
        selected: Seq::empty(),
        anchor: None,
        entries: arranged(entries, lower_names(entries)),
        error: None,
        ..p
    }
}

fn show_entries(raw: &Vec<RawEntry>, show_hidden: bool, only_dirs: bool) -> (r: Vec<Entry>)
    ensures
        entry_views(r@) == shown_entries(raw@, show_hidden, only_dirs),
{
    let mut out: Vec<Entry> = Vec::new();
    let mut i: usize = 0;
    assert(entry_views(out@) =~= shown_entries(raw@.take(0), show_hidden, only_dirs));
    while i < raw.len()
        invariant
            i <= raw.len(),
            entry_views(out@) == shown_entries(raw@.take(i as int), show_hidden, only_dirs),
        decreases raw.len() - i,
    {
        let e = &raw[i];
        assert(raw@.take(i + 1).drop_last() =~= raw@.take(i as int));
        let ghost before = entry_views(out@);
        let first = text::chars_of(e.name.as_str());
        let hidden = first.len() > 0 && first[0] == '.';
        if show_hidden || !hidden {
            match e.meta {
                None => {},
                Some(m) => if m.is_dir || (!only_dirs && m.is_file) {
                    out.push(
                        Entry { id: e.id, name: e.name.clone(), is_dir: m.is_dir, size: m.size },
                    );
                    assert(entry_views(out@) =~= before.push(out@[out@.len() - 1]@));
                },
            }
        }
        i = i + 1;
    }
    assert(raw@.take(i as int) =~= raw@);
    out
}

fn copy_entry(e: &Entry) -> (r: Entry)
    ensures
        r@ == e@,
{
    Entry { id: e.id, name: e.name.clone(), is_dir: e.is_dir, size: e.size }
}

/// The entries, folders before files, by their names in lower case, which are given.
pub fn arrange(v: &Vec<Entry>, lowered: &Vec<String>) -> (r: Vec<Entry>)
    requires
        v.len() == lowered.len(),
    ensures
        entry_views(r@) == arranged(entry_views(v@), text::texts(lowered@)),
{
    let ghost ev = entry_views(v@);
    let ghost lv = text::texts(lowered@);
    let mut keys: Vec<SortKey> = Vec::new();
    let mut i: usize = 0;
    while i < v.len()
        invariant
            i <= v.len(),
            v.len() == lowered.len(),
            keys.len() == i,
            ev == entry_views(v@),
            lv == text::texts(lowered@),
            forall|j: int|
                0 <= j < i ==> (#[trigger] keys@[j])@ == entry_keys(ev, lv)[j],
        decreases v.len() - i,
    {
        let rank: u8 = if v[i].is_dir { 0 } else { 1 };
        assert(ev[i as int] == v@[i as int]@);
        assert(lv[i as int] == lowered@[i as int]@);
        keys.push(SortKey { rank, text: text::chars_of(lowered[i].as_str()) });
        i = i + 1;
    }
    assert(sort::keys_view(keys@) =~= entry_keys(ev, lv));
    let order = sort::sorted_order(&keys);
    proof {
        sort::law_order_is_unique(
            entry_keys(ev, lv),
            0,
            ev.len() as int,
            order@,
            entry_order(ev, lv),
        );
    }
    let mut out: Vec<Entry> = Vec::new();
    let mut k: usize = 0;
    while k < order.len()
        invariant
            k <= order.len(),
            sort::sorts(entry_keys(ev, lv), 0, v@.len() as int, order@),
            ev == entry_views(v@),
            entry_views(out@) == order@.take(k as int).map_values(|i: usize| ev[i as int]),
        decreases order.len() - k,
    {
        let j: usize = order[k];
        let ghost before = out@;
        let e = copy_entry(&v[j]);
        out.push(e);
        k = k + 1;
        assert(entry_views(out@) =~= entry_views(before).push(ev[j as int]));
        assert(order@.take(k as int).map_values(|i: usize| ev[i as int]) =~= order@.take(
            k - 1,
        ).map_values(|i: usize| ev[i as int]).push(ev[j as int]));
    }
    assert(order@.take(k as int) =~= order@);
    out
}

fn lower_all(v: &Vec<Entry>) -> (r: Vec<String>)
    ensures
        text::texts(r@) == lower_names(entry_views(v@)),
        r.len() == v.len(),
{
    let mut out: Vec<String> = Vec::new();
    let mut i: usize = 0;
    while i < v.len()
        invariant
            i <= v.len(),
            out.len() == i,
            forall|j: int|
                0 <= j < i ==> (#[trigger] out@[j])@ == outside::lowercase(v@[j].name@),
        decreases v.len() - i,
    {
        out.push(outside::to_lowercase(v[i].name.as_str()));
        i = i + 1;
    }
    assert(text::texts(out@) =~= lower_names(entry_views(v@)));
    out
}

/// What to do with a path that the user wants to go to.
#[derive(Clone, Copy, Debug, PartialEq, Eq, Structural)]
pub enum GoStep {
    /// Read this folder, then go on with `opened` or `failed`.
    Open,
    /// It is a file: open its folder, then select it with `select_only`.
    OpenParent,
}

// ---------------------------------------------------------------- what clicks select
/// What is selected after a click on entry `i`: with `range` all from the entry clicked
/// last to this one, with `toggle` this one is added or taken away, else only this one.
/// Where only one can be chosen, it is always only this one.
pub open spec fn clicked(
    p: PickerView,
    ids: Seq<u64>,
    i: usize,
    toggle: bool,
    range: bool,
) -> (Seq<u64>, Option<usize>) {
    let multi = p.target == PickTarget::Send;
    if multi && range && p.anchor is Some {
        let a = p.anchor->0;
        let lo = if a < i {
            a
        } else {
            i
        };
        let hi = if a < i {
            i
        } else {
            a
        };
        (ids.subrange(lo as int, hi + 1), p.anchor)
    } else if multi && toggle {
        let k = text::find(p.selected, ids[i as int]) as int;
        (
            if k < p.selected.len() {
                p.selected.remove(k)
            } else {
                p.selected.push(ids[i as int])
            },
            Some(i),
        )
    } else {
        (seq![ids[i as int]], Some(i))
    }
}

/// The numbers of entries.
pub open spec fn ids_of(v: Seq<EntryView>) -> Seq<u64> {
    v.map_values(|e: EntryView| e.id)
}

fn ids_range(v: &Vec<Entry>, from: usize, to: usize) -> (r: Vec<u64>)
    requires
        from <= to <= v.len(),
    ensures
        r@ == ids_of(entry_views(v@)).subrange(from as int, to as int),
{
    let mut out: Vec<u64> = Vec::new();
    let mut i: usize = from;
    while i < to
        invariant
            from <= i <= to <= v.len(),
            out@ == ids_of(entry_views(v@)).subrange(from as int, i as int),
        decreases to - i,
    {
        out.push(v[i].id);
        i = i + 1;
        assert(out@ =~= ids_of(entry_views(v@)).subrange(from as int, i as int));
    }
    out
}

fn find_id(v: &Vec<u64>, id: u64) -> (r: usize)
    ensures
        r == text::find(v@, id),
        r <= v.len(),
{
    let mut i: usize = 0;
    while i < v.len() && v[i] != id
        invariant
            i <= v.len(),
            forall|j: int| 0 <= j < i ==> v@[j] != id,
        decreases v.len() - i,
    {
        i = i + 1;
    }
    proof {
        text::lemma_find_is(v@, id, i as int);
    }
    i
}

/// What a double click does.
#[derive(Clone, Copy, Debug, PartialEq, Eq, Structural)]
pub enum DoubleClick {
    /// Go into this folder.
    Enter(u64),
    /// This file is chosen.
    Choose(u64),
}

impl Picker {
    /// The window, before any folder was opened; it is to go to this one.
    pub fn new(target: PickTarget, dir: u64, shown: &str) -> (r: Picker)
        ensures
            r@ == (PickerView {
                target,
                dir,
                dir_shown: shown@,
                path_input: Seq::empty(),
                selected: Seq::empty(),
                anchor: None,
                show_hidden: false,
                entries: Seq::empty(),
                error: None,
            }),
    {
        let r = Picker {
            target,
            dir,
            dir_shown: shown.to_owned(),
            path_input: String::new(),
            selected: Vec::new(),
            anchor: None,
            show_hidden: false,
            entries: Vec::new(),
            error: None,
        };
        assert(r@.entries =~= Seq::empty());
        r
    }

    /// Whether only folders can be chosen.
    pub fn only_dirs(&self) -> (r: bool)
        ensures
            r == (self.target == PickTarget::RecvDir),
    {
        self.target == PickTarget::RecvDir
    }

    /// Whether several can be chosen.
    pub fn multi(&self) -> (r: bool)
        ensures
            r == (self.target == PickTarget::Send),
    {
        self.target == PickTarget::Send
    }

    /// What to do with a path that the user wants to go to; `is_file` says what it is.
    pub fn go(&self, is_file: bool) -> (r: GoStep)
        ensures
            r == if is_file && self.target != PickTarget::RecvDir {
                GoStep::OpenParent
            } else {
                GoStep::Open
            },
    {
        if is_file && !self.only_dirs() {
            GoStep::OpenParent
        } else {
            GoStep::Open
        }
    }

    /// A folder has been read; `dir` and `shown` are its true place.
    pub fn opened(&mut self, dir: u64, shown: &str, raw: &Vec<RawEntry>)
        ensures
            final(self)@ == folder_opened(old(self)@, dir, shown@, raw@),
    {
        let entries = show_entries(raw, self.show_hidden, self.only_dirs());
        let lowered = lower_all(&entries);
        self.entries = arrange(&entries, &lowered);
        self.dir = dir;
        self.dir_shown = shown.to_owned();
        self.path_input = shown.to_owned();
        self.selected = Vec::new();
        self.anchor = None;
        self.error = None;
    }

    /// A folder could not be read: the one that is open stays, and the reason is shown.
    pub fn failed(&mut self, shown: &str, e: &IoFailure)
        ensures
            final(self)@ == (PickerView {
                error: Some("Не удалось открыть "@ + shown@ + ": "@ + e.text@),
                path_input: old(self)@.dir_shown,
                ..old(self)@
            }),
    {
        let mut m = "Не удалось открыть ".to_owned();
        m.append(shown);
        m.append(": ");
        m.append(e.text.as_str());
        self.error = Some(m);
        self.path_input = self.dir_shown.clone();
    }

    /// Selects one path.
    pub fn select_only(&mut self, id: u64)
        ensures
            final(self)@ == (PickerView { selected: seq![id], ..old(self)@ }),
    {
        let mut v: Vec<u64> = Vec::new();
        v.push(id);
        self.selected = v;
        assert(self.selected@ =~= seq![id]);
    }

    /// Selects all entries.
    pub fn select_all(&mut self)
        ensures
            final(self)@ == (PickerView { selected: ids_of(old(self)@.entries), ..old(self)@ }),
    {
        let n: usize = self.entries.len();
        self.selected = ids_range(&self.entries, 0, n);
        assert(self.selected@ =~= ids_of(old(self)@.entries));
    }

    /// A click on entry `i` of `entries`.
    pub fn apply_click(&mut self, entries: &Vec<Entry>, i: usize, toggle: bool, range: bool)
        requires
            i < entries.len(),
            old(self).target == PickTarget::Send && range ==> (old(self).anchor matches Some(a)
                ==> a < entries.len()),
        ensures
            ({
                let ids = ids_of(entry_views(entries@));
                let (selected, anchor) = clicked(old(self)@, ids, i, toggle, range);
                final(self)@ == (PickerView { selected, anchor, ..old(self)@ })
            }),
    {
        let ghost ids = ids_of(entry_views(entries@));
        let multi = self.multi();
        let id: u64 = entries[i].id;
        assert(ids[i as int] == id);
        if multi && range {
            if let Some(a) = self.anchor {
                let lo: usize = if a < i { a } else { i };
                let hi: usize = if a < i { i } else { a };
                self.selected = ids_range(entries, lo, hi + 1);
                return;
            }
        }
        if multi && toggle {
            let k: usize = find_id(&self.selected, id);
            if k < self.selected.len() {
                let _ = self.selected.remove(k);
            } else {
                self.selected.push(id);
            }
        } else {
            self.select_only(id);
        }
        self.anchor = Some(i);
    }

    /// A double click on entry `i` of `entries`.
    pub fn double_click(entries: &Vec<Entry>, i: usize) -> (r: DoubleClick)
        requires
            i < entries.len(),
        ensures
            r == if entries[i as int].is_dir {
                DoubleClick::Enter(entries[i as int].id)
            } else {
                DoubleClick::Choose(entries[i as int].id)
            },
    {
        if entries[i].is_dir {
            DoubleClick::Enter(entries[i].id)
        } else {
            DoubleClick::Choose(entries[i].id)
        }
    }

    /// What is chosen: what is selected, or the open folder as a whole.
    pub fn chosen(&self) -> (r: Vec<u64>)
        ensures
            r@ == if self@.selected.len() == 0 {
                seq![self@.dir]
            } else {
                self@.selected
            },
    {
        if self.selected.len() == 0 {
            let mut v: Vec<u64> = Vec::new();
            v.push(self.dir);
            assert(v@ =~= seq![self.dir]);
            return v;
        }
        self.selected.clone()
    }

    /// Whether a path is selected.
    pub fn is_selected(&self, id: u64) -> (r: bool)
        ensures
            r == self@.selected.contains(id),
    {
        let k: usize = find_id(&self.selected, id);
        proof {
            text::lemma_find(self.selected@, id);
            if k < self.selected.len() {
                assert(self.selected@[k as int] == id);
            }
        }
        k < self.selected.len()
    }

    /// The title of the window.
    pub fn title(&self) -> (r: &'static str)
        ensures
            r@ == if self.target == PickTarget::RecvDir {
                "Выберите папку"@
            } else {
                "Выберите файлы или папки"@
            },
    {
        if self.target == PickTarget::RecvDir {
            "Выберите папку"
        } else {
            "Выберите файлы или папки"
        }
    }

    /// The path that the user typed.
    pub fn typed_path(&self) -> (r: String)
        ensures
            r@ == text::trimmed(self@.path_input),
    {
        text::trim_text(self.path_input.as_str())
    }
}

/// How an entry is shown: a folder with a slash, a file with its size.
pub fn entry_label(e: &Entry) -> (r: String)
    ensures
        r@ == if e.is_dir {
            e.name@ + "/"@
        } else {
            e.name@ + "   "@ + display::amount_text(e.size)
        },
{
    let mut m = e.name.clone();
    if e.is_dir {
        m.append("/");
    } else {
        m.append("   ");
        m.append(display::fmt_bytes(e.size).as_str());
    }
    m
}

// ---------------------------------------------------------------- laws
/// Where only one can be chosen, a click never leaves more than one selected.
pub proof fn law_single_choice(
    p: PickerView,
    ids: Seq<u64>,
    i: usize,
    toggle: bool,
    range: bool,
)
    requires
        p.target == PickTarget::RecvDir,
        i < ids.len(),
    ensures
        clicked(p, ids, i, toggle, range).0 == seq![ids[i as int]],
{
}

/// Adding an entry that is not selected and clicking it once more in the same way gives
/// back what was selected.
pub proof fn law_toggle_twice(p: PickerView, ids: Seq<u64>, i: usize)
    requires
        p.target == PickTarget::Send,
        i < ids.len(),
        !p.selected.contains(ids[i as int]),
    ensures
        ({
            let (s, a) = clicked(p, ids, i, true, false);
            let q = PickerView { selected: s, anchor: a, ..p };
            clicked(q, ids, i, true, false).0 == p.selected
        }),
{
    let id = ids[i as int];
    text::lemma_find(p.selected, id);
    let k = text::find(p.selected, id) as int;
    assert(k == p.selected.len()) by {
        if k < p.selected.len() {
            assert(p.selected[k] == id);
        }
    }
    let s = p.selected.push(id);
    assert forall|j: int| 0 <= j < p.selected.len() implies s[j] != id by {
        assert(p.selected.contains(p.selected[j]));
    }
    text::lemma_find_is(s, id, p.selected.len() as int);
    assert(s.remove(p.selected.len() as int) =~= p.selected);
}

/// In an open folder every folder stands before every file.
pub proof fn law_folders_come_first(v: Seq<EntryView>, lowered: Seq<Seq<char>>)
    requires
        v.len() == lowered.len(),
        v.len() <= usize::MAX,
    ensures
        arranged(v, lowered).len() == v.len(),
        forall|i: int, j: int|
            0 <= i < j < v.len() && !(#[trigger] arranged(v, lowered)[i]).is_dir ==> !(
            #[trigger] arranged(v, lowered)[j]).is_dir,
{
    let keys = entry_keys(v, lowered);
    let _ = sort::law_order_exists(keys, v.len() as int);
    let o = entry_order(v, lowered);
    let s = arranged(v, lowered);
    assert forall|i: int, j: int| 0 <= i < j < v.len() && !(#[trigger] s[i]).is_dir implies !(
    #[trigger] s[j]).is_dir by {
        assert(sort::item_before(keys, o[i] as int, o[j] as int));
        assert(s[i] == v[o[i] as int]);
        assert(s[j] == v[o[j] as int]);
    }
}

/// What a folder shows: a name that begins with a dot only where hidden files are wanted,
/// folders always, files where files can be chosen, and neither what is something else nor what
/// could not be read. What is shown is shown as it is.
pub proof fn law_what_is_shown(
    e: RawEntry,
    is_dir: bool,
    is_file: bool,
    size: u64,
    show_hidden: bool,
    only_dirs: bool,
)
    requires
        e.meta matches Some(m) ==> m.is_dir == is_dir && m.is_file == is_file && m.size == size,
    ensures
        e.meta is None ==> shown_entry(e, show_hidden, only_dirs) is None,
        e.name@.len() > 0 && e.name@[0] == '.' ==> shown_entry(e, false, only_dirs) is None,
        e.name@.len() > 0 && e.name@[0] != '.' ==> shown_entry(e, false, only_dirs) == shown_entry(
            e,
            true,
            only_dirs,
        ),
        e.name@.len() == 0 ==> shown_entry(e, false, only_dirs) == shown_entry(e, true, only_dirs),
        e.meta is Some && is_dir ==> shown_entry(e, true, only_dirs) == Some(
            EntryView { id: e.id, name: e.name@, is_dir: true, size },
        ),
        e.meta is Some && !is_dir && is_file ==> shown_entry(e, true, false) == Some(
            EntryView { id: e.id, name: e.name@, is_dir: false, size },
        ),
        !is_dir ==> shown_entry(e, show_hidden, true) is None,
        !is_dir && !is_file ==> shown_entry(e, show_hidden, only_dirs) is None,
{
}

/// Every entry of a folder is looked at once, in order, and each on its own.
pub proof fn law_every_entry_is_looked_at(
    a: Seq<RawEntry>,
    b: Seq<RawEntry>,
    e: RawEntry,
    show_hidden: bool,
    only_dirs: bool,
)
    ensures
        shown_entries(a + b, show_hidden, only_dirs) == shown_entries(a, show_hidden, only_dirs)
            + shown_entries(b, show_hidden, only_dirs),
        shown_entries(seq![e], show_hidden, only_dirs) == match shown_entry(
            e,
            show_hidden,
            only_dirs,
        ) {
            Some(x) => seq![x],
            None => Seq::empty(),
        },
        shown_entries(Seq::empty(), show_hidden, only_dirs) == Seq::<EntryView>::empty(),
    decreases b.len(),
{
    let one = seq![e];
    assert(one.drop_last() =~= Seq::<RawEntry>::empty());
    assert(shown_entries(one.drop_last(), show_hidden, only_dirs) =~= Seq::<EntryView>::empty());
    if let Some(x) = shown_entry(e, show_hidden, only_dirs) {
        assert(Seq::<EntryView>::empty().push(x) =~= seq![x]);
    }
    let s = a + b;
    if b.len() == 0 {
        assert(s =~= a);
        assert(shown_entries(a, show_hidden, only_dirs) + shown_entries(b, show_hidden, only_dirs)
            =~= shown_entries(a, show_hidden, only_dirs));
    } else {
        assert(s.drop_last() =~= a + b.drop_last());
        assert(s.last() == b.last());
        law_every_entry_is_looked_at(a, b.drop_last(), e, show_hidden, only_dirs);
        assert(shown_entries(s, show_hidden, only_dirs) =~= shown_entries(
            a,
            show_hidden,
            only_dirs,
        ) + shown_entries(b, show_hidden, only_dirs));
    }
}

/// Sorting keeps every entry and adds none, and stands the names of two folders, or of two
/// files, in alphabetical order, whatever the case of their letters.
pub proof fn law_entries_are_sorted(v: Seq<EntryView>)
    requires
        v.len() <= usize::MAX,
    ensures
        ({
            let s = arranged(v, lower_names(v));
            &&& s.len() == v.len()
            &&& forall|i: int| 0 <= i < v.len() ==> s.contains(#[trigger] v[i])
            &&& forall|p: int| 0 <= p < v.len() ==> v.contains(#[trigger] s[p])
            &&& forall|p: int, q: int|
                0 <= p < q < v.len() && (#[trigger] s[p]).is_dir == (#[trigger] s[q]).is_dir
                    ==> !sort::text_before(
                    outside::lowercase(s[q].name),
                    outside::lowercase(s[p].name),
                )
        }),
{
    let lowered = lower_names(v);
    let keys = entry_keys(v, lowered);
    let _ = sort::law_order_exists(keys, v.len() as int);
    let o = entry_order(v, lowered);
    let s = arranged(v, lowered);
    assert forall|i: int| 0 <= i < v.len() implies s.contains(#[trigger] v[i]) by {
        assert(o.contains(i as usize));
        let p = choose|p: int| 0 <= p < o.len() && o[p] == i as usize;
        assert(s[p] == v[i]);
    }
    assert forall|p: int| 0 <= p < v.len() implies v.contains(#[trigger] s[p]) by {
        assert(s[p] == v[o[p] as int]);
    }
    assert forall|p: int, q: int|
        0 <= p < q < v.len() && (#[trigger] s[p]).is_dir == (
        #[trigger] s[q]).is_dir implies !sort::text_before(
        outside::lowercase(s[q].name),
        outside::lowercase(s[p].name),
    ) by {
        assert(sort::item_before(keys, o[p] as int, o[q] as int));
        sort::law_item_order(keys, o[p] as int, o[q] as int, o[p] as int);
        assert(s[p] == v[o[p] as int]);
        assert(s[q] == v[o[q] as int]);
        assert(keys[o[p] as int].1 == outside::lowercase(s[p].name));
        assert(keys[o[q] as int].1 == outside::lowercase(s[q].name));
    }
}

/// Opening a folder shows that folder: its path in both places, nothing chosen in it yet, no
/// failure, and of its entries every one that is to be shown. What is picked, and whether hidden
/// files are wanted, stays.
pub proof fn law_folder_opens(p: PickerView, dir: u64, shown: Seq<char>, raw: Seq<RawEntry>)
    requires
        raw.len() <= usize::MAX,
    ensures
        ({
            let q = folder_opened(p, dir, shown, raw);
            &&& q.dir == dir
            &&& q.dir_shown == shown
            &&& q.path_input == shown
            &&& q.selected.len() == 0
            &&& q.anchor is None
            &&& q.error is None
            &&& q.target == p.target
            &&& q.show_hidden == p.show_hidden
            &&& forall|i: int|
                0 <= i < raw.len() ==> (shown_entry(
                    #[trigger] raw[i],
                    p.show_hidden,
                    p.target is RecvDir,
                ) matches Some(e) ==> q.entries.contains(e))
            &&& q.entries.len() <= raw.len()
        }),
{
    let only = p.target is RecvDir;
    let v = shown_entries(raw, p.show_hidden, only);
    lemma_shown_count(raw, p.show_hidden, only);
    law_entries_are_sorted(v);
    let s = arranged(v, lower_names(v));
    assert forall|i: int| 0 <= i < raw.len() implies (shown_entry(
        #[trigger] raw[i],
        p.show_hidden,
        only,
    ) matches Some(e) ==> s.contains(e)) by {
        if let Some(e) = shown_entry(raw[i], p.show_hidden, only) {
            let k = choose|k: int| 0 <= k < v.len() && v[k] == e;
            assert(s.contains(v[k]));
        }
    }
}

proof fn lemma_shown_count(raw: Seq<RawEntry>, show_hidden: bool, only: bool)
    ensures
        shown_entries(raw, show_hidden, only).len() <= raw.len(),
        forall|i: int|
            0 <= i < raw.len() ==> (shown_entry(#[trigger] raw[i], show_hidden, only) matches Some(
                e,
            ) ==> shown_entries(raw, show_hidden, only).contains(e)),
    decreases raw.len(),
{
    if raw.len() > 0 {
        let u = raw.drop_last();
        lemma_shown_count(u, show_hidden, only);
        let r = shown_entries(u, show_hidden, only);
        let v = shown_entries(raw, show_hidden, only);
        assert forall|i: int| 0 <= i < raw.len() implies (shown_entry(
            #[trigger] raw[i],
            show_hidden,
            only,
        ) matches Some(e) ==> v.contains(e)) by {
            if let Some(e) = shown_entry(raw[i], show_hidden, only) {
                if i < u.len() {
                    assert(u[i] == raw[i]);
                    let k = choose|k: int| 0 <= k < r.len() && r[k] == e;
                    assert(v[k] == e);
                } else {
                    assert(v.last() == e);
                }
            }
        }
    }
}

/// What a click chooses. A plain click chooses that entry alone. With the key for single entries
/// it is added at the end, or taken away where it was chosen. With the key for a range it is
/// everything from the entry of the last click up to this one, in either direction, and the
/// place that the range starts from stays.
pub proof fn law_what_a_click_chooses(
    p: PickerView,
    ids: Seq<u64>,
    i: usize,
    k: usize,
    before: Seq<u64>,
    after: Seq<u64>,
)
    requires
        i < ids.len(),
        k < ids.len(),
        !before.contains(ids[i as int]),
    ensures
        clicked(p, ids, i, false, false) == (seq![ids[i as int]], Some(i)),
        p.target is RecvDir ==> clicked(p, ids, i, true, true) == (seq![ids[i as int]], Some(i)),
        p.target is Send && p.selected == before ==> clicked(p, ids, i, true, false) == (
            before + seq![ids[i as int]],
            Some(i),
        ),
        p.target is Send && p.selected == before + seq![ids[i as int]] + after ==> clicked(
            p,
            ids,
            i,
            true,
            false,
        ) == (before + after, Some(i)),
        p.target is Send && p.anchor == Some(k) ==> forall|toggle: bool|
            ({
                let (s, a) = #[trigger] clicked(p, ids, i, toggle, true);
                &&& a == Some(k)
                &&& k <= i ==> s.len() == i - k + 1 && forall|j: int|
                    k <= j <= i ==> s[j - k] == #[trigger] ids[j]
                &&& i <= k ==> s.len() == k - i + 1 && forall|j: int|
                    i <= j <= k ==> s[j - i] == #[trigger] ids[j]
            }),
        p.anchor is None ==> forall|toggle: bool|
            #[trigger] clicked(p, ids, i, toggle, true) == clicked(p, ids, i, toggle, false),
{
    let x = ids[i as int];
    text::law_first_place_is_found(before, x, after);
    if p.selected == before {
        assert(before.push(x) =~= before + seq![x]);
    }
    if p.selected == before + seq![x] + after {
        assert(p.selected.remove(before.len() as int) =~= before + after);
    }
}

/// The numbers of the entries are theirs, in their order.
pub proof fn law_numbers_of_the_entries(v: Seq<EntryView>)
    ensures
        ids_of(v).len() == v.len(),
        forall|i: int| 0 <= i < v.len() ==> #[trigger] ids_of(v)[i] == v[i].id,
{
}

} // verus!
