//! The files of a folder, with the names under which they are sent. The folder is read
//! from outside, one folder after another; paths are known here by numbers only.
use crate::error;
use crate::error::TftpError;
use crate::sort;
use crate::sort::SortKey;
use crate::text;
use crate::wait::IoFailure;
use vstd::prelude::*;

verus! {

/// A file or folder: the number of its path, and the name under which it is sent.
#[derive(Debug)]
pub struct Named {
    pub id: u64,
    pub name: String,
}

impl View for Named {
    type V = (u64, Seq<char>);

    open spec fn view(&self) -> (u64, Seq<char>) {
        (self.id, self.name@)
    }
}

/// Numbers and names of several files.
pub open spec fn named(v: Seq<Named>) -> Seq<(u64, Seq<char>)> {
    v.map_values(|n: Named| n@)
}

/// What stands under a name in a folder.
#[derive(Clone, Copy, Debug, PartialEq, Eq, Structural)]
pub enum EntryKind {
    File,
    Folder,
    /// A link may lead out of the folder.
    Link,
    /// A device, a socket and the like.
    Other,
    /// The system did not tell.
    Unknown,
}

/// The files of a folder, as far as they have been found.
pub struct Walk {
    /// Folders that are still to be read.
    stack: Vec<Named>,
    files: Vec<Named>,
    /// What could not be read.
    skipped: Vec<String>,
    /// The number of the folder that was asked for.
    root: u64,
}

#[verifier::ext_equal]
pub struct WalkView {
    pub stack: Seq<(u64, Seq<char>)>,
    pub files: Seq<(u64, Seq<char>)>,
    pub skipped: Seq<Seq<char>>,
    pub root: u64,
}

impl View for Walk {
    type V = WalkView;

    closed spec fn view(&self) -> WalkView {
        WalkView {
            stack: named(self.stack@),
            files: named(self.files@),
            skipped: text::texts(self.skipped@),
            root: self.root,
        }
    }
}

/// A name without the dots at its start.
pub open spec fn undotted(s: Seq<char>) -> Seq<char>
    decreases s.len(),
{
    if s.len() > 0 && s[0] == '.' {
        undotted(s.skip(1))
    } else {
        s
    }
}

/// The name under which a folder is sent. A hidden folder is not accepted as such on the
/// other side, so the dots at its start go.
pub open spec fn base_name(file_name: Option<Seq<char>>) -> Seq<char> {
    match file_name {
        Some(s) => if undotted(s).len() == 0 {
            "folder"@
        } else {
            undotted(s)
        },
        None => "folder"@,
    }
}

/// The name under which an entry of a folder is sent.
pub open spec fn child_name(rel: Seq<char>, name: Seq<char>) -> Seq<char> {
    rel + "/"@ + name
}

/// The walk after an entry of the folder `rel` has been seen: files are taken, folders
/// will be read, links and devices are left out, and what the system did not tell is
/// noted.
pub open spec fn entry_seen(
    w: WalkView,
    rel: Seq<char>,
    id: u64,
    name: Seq<char>,
    shown: Seq<char>,
    kind: EntryKind,
) -> WalkView {
    match kind {
        EntryKind::Unknown => WalkView { skipped: w.skipped.push(shown), ..w },
        EntryKind::Link => w,
        EntryKind::Folder => WalkView { stack: w.stack.push((id, child_name(rel, name))), ..w },
        EntryKind::File => WalkView { files: w.files.push((id, child_name(rel, name))), ..w },
        EntryKind::Other => w,
    }
}

/// Names as keys to sort by.
pub open spec fn name_keys(v: Seq<(u64, Seq<char>)>) -> Seq<(u8, Seq<char>)> {
    v.map_values(|n: (u64, Seq<char>)| (0u8, n.1))
}

/// The order of several files by their names.
pub open spec fn name_order(v: Seq<(u64, Seq<char>)>) -> Seq<usize> {
    choose|o: Seq<usize>| sort::sorts(name_keys(v), 0, v.len() as int, o)
}

/// Several files in the order of their names.
pub open spec fn by_name(v: Seq<(u64, Seq<char>)>) -> Seq<(u64, Seq<char>)> {
    name_order(v).map_values(|i: usize| v[i as int])
}

fn join_name(rel: &str, name: &str) -> (r: String)
    ensures
        r@ == child_name(rel@, name@),
{
    let mut s = rel.to_owned();
    s.append("/");
    s.append(name);
    s
}

/// The name under which a folder is sent.
pub fn folder_name(file_name: Option<&str>) -> (r: String)
    ensures
        r@ == base_name(
            match file_name {
                Some(s) => Some(s@),
                None => None,
            },
        ),
{
    let s = match file_name {
        Some(s) => s,
        None => {
            return "folder".to_owned();
        },
    };
    let v = text::chars_of(s);
    let mut a: usize = 0;
    assert(s@.skip(0) =~= s@);
    while a < v.len() && v[a] == '.'
        invariant
            a <= v.len(),
            v@ == s@,
            undotted(s@) == undotted(s@.skip(a as int)),
        decreases v.len() - a,
    {
        assert(s@.skip(a as int).skip(1) =~= s@.skip(a + 1));
        a = a + 1;
    }
    if a == v.len() {
        assert(s@.skip(a as int) =~= Seq::empty());
        return "folder".to_owned();
    }
    assert(s@.skip(a as int) =~= s@.subrange(a as int, s@.len() as int));
    text::text_range(&v, a, v.len())
}

fn push_named(v: &mut Vec<Named>, id: u64, name: String)
    ensures
        named(final(v)@) == named(old(v)@).push((id, name@)),
{
    v.push(Named { id, name });
    assert(named(v@) =~= named(old(v)@).push((id, name@)));
}

/// Starts with the folder of path number `root`, whose own name is `file_name`.
pub fn collect_files(root: u64, file_name: Option<&str>) -> (r: Walk)
    ensures
        r@ == (WalkView {
            stack: seq![
                (
                    root,
                    base_name(
                        match file_name {
                            Some(s) => Some(s@),
                            None => None,
                        },
                    ),
                ),
            ],
            files: Seq::empty(),
            skipped: Seq::empty(),
            root,
        }),
{
    let mut stack: Vec<Named> = Vec::new();
    push_named(&mut stack, root, folder_name(file_name));
    let r = Walk { stack, files: Vec::new(), skipped: Vec::new(), root };
    assert(r@.stack =~= seq![(root, r@.stack[0].1)]);
    assert(r@.files =~= Seq::empty());
    assert(r@.skipped =~= Seq::empty());
    r
}

impl Walk {
    /// The folder to read next: the one found last. Nothing if all have been read.
    pub fn next_folder(&mut self) -> (r: Option<Named>)
        ensures
            match r {
                Some(n) => {
                    &&& old(self)@.stack.len() > 0
                    &&& n@ == old(self)@.stack.last()
                    &&& final(self)@ == (WalkView {
                        stack: old(self)@.stack.drop_last(),
                        ..old(self)@
                    })
                },
                None => old(self)@.stack.len() == 0 && final(self)@ == old(self)@,
            },
    {
        let ghost before = self.stack@;
        let r = self.stack.pop();
        proof {
            if before.len() > 0 {
                assert(named(self.stack@) =~= named(before).drop_last());
                assert(named(before).last() == before.last()@);
            }
        }
        r
    }

    /// A folder could not be read. That is fatal for the folder that was asked for; any
    /// other is passed over.
    pub fn unreadable(&mut self, folder: &Named, shown: &str, e: &IoFailure) -> (r: Result<
        (),
        TftpError,
    >)
        ensures
            folder.id == old(self)@.root ==> {
                &&& final(self)@ == old(self)@
                &&& r matches Err(f) && f@ == error::ErrorView::Io(shown@ + ": "@ + e.text@)
            },
            folder.id != old(self)@.root ==> {
                &&& r is Ok
                &&& final(self)@ == (WalkView {
                    skipped: old(self)@.skipped.push(shown@ + " ("@ + e.text@ + ")"@),
                    ..old(self)@
                })
            },
    {
        if folder.id == self.root {
            return Err(error::io_with_path(e.text.as_str(), shown));
        }
        let mut m = shown.to_owned();
        m.append(" (");
        m.append(e.text.as_str());
        m.append(")");
        text::push_text(&mut self.skipped, m);
        Ok(())
    }

    /// An entry of a folder has been seen.
    pub fn entry(&mut self, folder: &Named, id: u64, name: &str, shown: &str, kind: EntryKind)
        ensures
            final(self)@ == entry_seen(old(self)@, folder.name@, id, name@, shown@, kind),
    {
        match kind {
            EntryKind::Unknown => text::push_text(&mut self.skipped, shown.to_owned()),
            EntryKind::Link => {},
            EntryKind::Folder => push_named(
                &mut self.stack,
                id,
                join_name(folder.name.as_str(), name),
            ),
            EntryKind::File => push_named(
                &mut self.files,
                id,
                join_name(folder.name.as_str(), name),
            ),
            EntryKind::Other => {},
        }
    }

    /// The files that were found, in the order of their names, and what could not be read.
    pub fn finish(self) -> (r: (Vec<Named>, Vec<String>))
        ensures
            named(r.0@) == by_name(self@.files),
            text::texts(r.1@) == self@.skipped,
    {
        (sort_named(&self.files), self.skipped)
    }
}

/// The files in the order of their names.
fn sort_named(v: &Vec<Named>) -> (r: Vec<Named>)
    ensures
        named(r@) == by_name(named(v@)),
{
    let mut keys: Vec<SortKey> = Vec::new();
    let mut i: usize = 0;
    while i < v.len()
        invariant
            i <= v.len(),
            keys.len() == i,
            forall|j: int| 0 <= j < i ==> (#[trigger] keys@[j])@ == (0u8, v@[j].name@),
        decreases v.len() - i,
    {
        keys.push(SortKey { rank: 0, text: text::chars_of(v[i].name.as_str()) });
        i = i + 1;
    }
    let ghost nv = named(v@);
    assert(sort::keys_view(keys@) =~= name_keys(nv));
    let order = sort::sorted_order(&keys);
    proof {
        sort::law_order_is_unique(name_keys(nv), 0, nv.len() as int, order@, name_order(nv));
    }
    let mut out: Vec<Named> = Vec::new();
    let mut k: usize = 0;
    while k < order.len()
        invariant
            k <= order.len(),
            sort::sorts(name_keys(nv), 0, v@.len() as int, order@),
            nv == named(v@),
            named(out@) == order@.take(k as int).map_values(|i: usize| nv[i as int]),
        decreases order.len() - k,
    {
        let j: usize = order[k];
        let ghost before = named(out@);
        push_named(&mut out, v[j].id, v[j].name.clone());
        k = k + 1;
        assert(order@.take(k as int).map_values(|i: usize| nv[i as int]) =~= order@.take(
            k - 1,
        ).map_values(|i: usize| nv[i as int]).push(nv[j as int]));
    }
    assert(order@.take(k as int) =~= order@);
    out
}

/// Nothing is sent that a link leads to, and every file is sent under a name that starts
/// with the name of its folder.
pub proof fn law_entries_stay_below(
    w: WalkView,
    rel: Seq<char>,
    id: u64,
    name: Seq<char>,
    shown: Seq<char>,
    kind: EntryKind,
)
    ensures
        kind == EntryKind::Link ==> entry_seen(w, rel, id, name, shown, kind) == w,
        kind == EntryKind::File ==> entry_seen(w, rel, id, name, shown, kind).files
            == w.files.push((id, rel + "/"@ + name)),
        kind != EntryKind::File ==> entry_seen(w, rel, id, name, shown, kind).files == w.files,
        text::begins(child_name(rel, name), rel),
{
    assert(child_name(rel, name).take(rel.len() as int) =~= rel);
}

/// Sorting by name loses no file and adds none, and leaves files with equal names in
/// their order.
pub proof fn law_by_name_keeps_files(v: Seq<(u64, Seq<char>)>)
    requires
        v.len() <= usize::MAX,
    ensures
        by_name(v).len() == v.len(),
        forall|i: int| 0 <= i < v.len() ==> by_name(v).contains(#[trigger] v[i]),
        forall|p: int, q: int|
            0 <= p < q < v.len() ==> !sort::text_before(
                (#[trigger] by_name(v)[q]).1,
                (#[trigger] by_name(v)[p]).1,
            ),
{
    let _ = sort::law_order_exists(name_keys(v), v.len() as int);
    let o = name_order(v);
    let s = by_name(v);
    assert forall|i: int| 0 <= i < v.len() implies s.contains(#[trigger] v[i]) by {
        assert(o.contains(i as usize));
        let p = choose|p: int| 0 <= p < o.len() && o[p] == i as usize;
        assert(s[p] == v[i]);
    }
    assert forall|p: int, q: int| 0 <= p < q < v.len() implies !sort::text_before(
        (#[trigger] s[q]).1,
        (#[trigger] s[p]).1,
    ) by {
        let keys = name_keys(v);
        assert(sort::item_before(keys, o[p] as int, o[q] as int));
        sort::law_item_order(keys, o[p] as int, o[q] as int, o[p] as int);
        assert(keys[o[p] as int].1 == s[p].1);
        assert(keys[o[q] as int].1 == s[q].1);
    }
}

/// Every entry of a folder is dealt with, whatever its name: a file is sent and a folder is
/// read later, both under the name of their folder, a slash, and their own; a link and what
/// is neither file nor folder are passed over; and what cannot be looked at is noted.
pub proof fn law_every_entry_counts(
    w: WalkView,
    rel: Seq<char>,
    id: u64,
    name: Seq<char>,
    shown: Seq<char>,
)
    ensures
        entry_seen(w, rel, id, name, shown, EntryKind::File) == (WalkView {
            files: w.files.push((id, rel + "/"@ + name)),
            ..w
        }),
        entry_seen(w, rel, id, name, shown, EntryKind::Folder) == (WalkView {
            stack: w.stack.push((id, rel + "/"@ + name)),
            ..w
        }),
        entry_seen(w, rel, id, name, shown, EntryKind::Link) == w,
        entry_seen(w, rel, id, name, shown, EntryKind::Other) == w,
        entry_seen(w, rel, id, name, shown, EntryKind::Unknown) == (WalkView {
            skipped: w.skipped.push(shown),
            ..w
        }),
{
}

/// Whether these are all dots.
pub open spec fn all_dots(s: Seq<char>) -> bool {
    forall|i: int| 0 <= i < s.len() ==> #[trigger] s[i] == '.'
}

/// A folder is sent under its own name without the dots in front, so that it does not come
/// in hidden; one that has nothing else in its name is sent as "folder".
pub proof fn law_folder_is_not_sent_hidden(dots: Seq<char>, rest: Seq<char>)
    requires
        all_dots(dots),
        rest.len() > 0 ==> rest[0] != '.',
    ensures
        base_name(Some(dots + rest)) == if rest.len() > 0 {
            rest
        } else {
            "folder"@
        },
        base_name(None) == "folder"@,
    decreases dots.len(),
{
    let s = dots + rest;
    if dots.len() > 0 {
        assert(s.skip(1) =~= dots.skip(1) + rest);
        law_folder_is_not_sent_hidden(dots.skip(1), rest);
    } else {
        assert(s =~= rest);
    }
}

} // verus!
