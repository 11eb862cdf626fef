//! Names and paths: which names a stranger may write to, where a file goes so that
//! nothing is overwritten, and which files of a folder are sent under which names.
use crate::outside;
use crate::text;
use vstd::prelude::*;

verus! {

// ---------------------------------------------------------------- names that come in
/// An incoming name may go this deep.
pub const MAX_PARTS: usize = 32;

/// A name with slashes in place of backslashes.
pub open spec fn slashed(s: Seq<char>) -> Seq<char> {
    s.map_values(|c: char| if c == '\\' { '/' } else { c })
}

/// The parts of a name between its slashes, without empty parts and those that are a
/// single dot.
pub open spec fn name_parts(s: Seq<char>) -> Seq<Seq<char>>
    decreases s.len(),
{
    let i = text::find(s, '/') as int;
    let p = s.take(i);
    let first = if p.len() == 0 || p == "."@ {
        Seq::empty()
    } else {
        seq![p]
    };
    if i >= s.len() {
        first
    } else {
        first + name_parts(s.skip(i + 1))
    }
}

/// Whether a part must not stand in an incoming name.
pub open spec fn bad_part(p: Seq<char>) -> bool {
    p == ".."@ || p.contains('\0') || p.contains(':')
}

/// Whether a name starts at the root.
pub open spec fn is_absolute(s: Seq<char>) -> bool {
    s.len() > 0 && s[0] == '/'
}

/// The parts of an incoming name, folders first and the file last. There is no answer
/// for a name that is empty, absolute, too deep, leads upwards, holds a zero or a colon, or
/// starts with a dot: hidden files are accepted inside a folder only.
pub open spec fn incoming_parts(filename: Seq<char>) -> Option<Seq<Seq<char>>> {
    let ps = name_parts(slashed(filename));
    if is_absolute(slashed(filename)) || ps.len() == 0 || ps.len() > MAX_PARTS || ps[0][0] == '.' || (exists|i: int|
        0 <= i < ps.len() && bad_part(#[trigger] ps[i])) {
        None
    } else {
        Some(ps)
    }
}

fn slash_chars(s: &str) -> (r: Vec<char>)
    ensures
        r@ == slashed(s@),
{
    let v = text::chars_of(s);
    let mut out: Vec<char> = Vec::new();
    let mut i: usize = 0;
    while i < v.len()
        invariant
            i <= v.len(),
            v@ == s@,
            out@ == slashed(s@.take(i as int)),
        decreases v.len() - i,
    {
        let c: char = v[i];
        out.push(if c == '\\' { '/' } else { c });
        i = i + 1;
        assert(out@ =~= slashed(s@.take(i as int)));
    }
    assert(s@.take(i as int) =~= s@);
    out
}

/// Splits a name into its parts.
fn split_name(v: &Vec<char>) -> (r: Vec<String>)
    ensures
        text::texts(r@) == name_parts(v@),
{
    let mut out: Vec<String> = Vec::new();
    let mut a: usize = 0;
    let mut more = true;
    assert(v@.skip(0) =~= v@);
    assert(text::texts(out@) + name_parts(v@) =~= name_parts(v@));
    while more
        invariant
            a <= v.len(),
            more ==> text::texts(out@) + name_parts(v@.skip(a as int)) == name_parts(v@),
            !more ==> text::texts(out@) == name_parts(v@),
        decreases v.len() - a + (if more { 1int } else { 0 }),
    {
        let ghost rest = v@.skip(a as int);
        assert(v@.subrange(a as int, v@.len() as int) =~= rest);
        let n: usize = text::find_char(vstd::slice::slice_subrange(v, a, v.len()), '/');
        let part = text::text_range(v, a, a + n);
        assert(part@ =~= rest.take(n as int));
        let ghost before = text::texts(out@);
        let keep = n > 0 && !text::same_text(part.as_str(), ".");
        if keep {
            out.push(part);
            assert(text::texts(out@) =~= before + seq![part@]);
        }
        if n == v.len() - a {
            more = false;
            assert(text::texts(out@) =~= before + name_parts(rest));
        } else {
            assert(rest.skip(n + 1) =~= v@.skip(a + n + 1));
            a = a + n + 1;
            assert(text::texts(out@) + name_parts(v@.skip(a as int)) =~= before + name_parts(
                rest,
            ));
        }
    }
    out
}

/// Whether a part must not stand in an incoming name.
fn is_bad_part(p: &str) -> (r: bool)
    ensures
        r == bad_part(p@),
{
    let v = text::chars_of(p);
    proof {
        text::lemma_find(p@, '\0');
        text::lemma_find(p@, ':');
    }
    let nul: usize = text::find_char(&v, '\0');
    let colon: usize = text::find_char(&v, ':');
    proof {
        if nul < v.len() {
            assert(p@[nul as int] == '\0');
        }
        if colon < v.len() {
            assert(p@[colon as int] == ':');
        }
    }
    text::same_text(p, "..") || nul < v.len() || colon < v.len()
}

/// No part of a name is empty, a single dot, or holds a slash.
pub proof fn lemma_parts(s: Seq<char>)
    ensures
        forall|i: int| 0 <= i < name_parts(s).len() ==> {
            let p = #[trigger] name_parts(s)[i];
            p.len() > 0 && p != "."@ && !p.contains('/') && forall|k: int|
                0 <= k < p.len() ==> s.contains(#[trigger] p[k])
        },
    decreases s.len(),
{
    text::lemma_find(s, '/');
    let i = text::find(s, '/') as int;
    let p = s.take(i);
    assert forall|k: int| 0 <= k < p.len() implies s.contains(#[trigger] p[k]) && p[k] != '/' by {
        assert(s[k] == p[k]);
    }
    if i < s.len() {
        let t = s.skip(i + 1);
        lemma_parts(t);
        let first = if p.len() == 0 || p == "."@ {
            Seq::empty()
        } else {
            seq![p]
        };
        assert forall|n: int| 0 <= n < name_parts(s).len() implies {
            let q = #[trigger] name_parts(s)[n];
            q.len() > 0 && q != "."@ && !q.contains('/') && forall|k: int|
                0 <= k < q.len() ==> s.contains(#[trigger] q[k])
        } by {
            if n >= first.len() {
                let q = name_parts(t)[n - first.len()];
                assert(name_parts(s)[n] == q);
                assert forall|k: int| 0 <= k < q.len() implies s.contains(#[trigger] q[k]) by {
                    assert(t.contains(q[k]));
                    let m = choose|m: int| 0 <= m < t.len() && t[m] == q[k];
                    assert(s[m + i + 1] == q[k]);
                }
            }
        }
    }
}

/// Whatever name a stranger sends, what is accepted of it stays inside the folder for
/// incoming files: every part is a plain name, so that none leads upwards, to the root,
/// to another drive or to this same folder, and nothing hidden comes to lie directly in it.
/// An absolute name is refused, with either kind of slash, and so is one that leads upwards.
pub proof fn law_incoming_stays_inside(filename: Seq<char>)
    ensures
        filename.len() > 0 && (filename[0] == '/' || filename[0] == '\\')
            ==> incoming_parts(filename) is None,
        name_parts(slashed(filename)).contains(".."@) ==> incoming_parts(filename) is None,
        incoming_parts(filename) matches Some(ps) ==> {
            &&& 1 <= ps.len() <= MAX_PARTS
            &&& ps[0][0] != '.'
            &&& forall|i: int| 0 <= i < ps.len() ==> {
                let p = #[trigger] ps[i];
                &&& p.len() > 0
                &&& p != "."@
                &&& p != ".."@
                &&& !p.contains('/')
                &&& !p.contains('\\')
                &&& !p.contains('\0')
                &&& !p.contains(':')
            }
        },
{
    let s = slashed(filename);
    lemma_parts(s);
    assert(!s.contains('\\'));
    if name_parts(s).contains(".."@) {
        let i = choose|i: int| 0 <= i < name_parts(s).len() && name_parts(s)[i] == ".."@;
        assert(bad_part(name_parts(s)[i]));
    }
    if incoming_parts(filename) is Some {
        let ps = name_parts(s);
        assert forall|i: int| 0 <= i < ps.len() implies !(#[trigger] ps[i]).contains('\\') by {
            let p = ps[i];
            if p.contains('\\') {
                let k = choose|k: int| 0 <= k < p.len() && p[k] == '\\';
                assert(s.contains(p[k]));
            }
        }
        assert forall|i: int| 0 <= i < ps.len() implies !bad_part(#[trigger] ps[i]) by {}
    }
}

/// The parts of an incoming name, folders first and the file last, if it is acceptable.
pub fn prepare_incoming(filename: &str) -> (r: Option<Vec<String>>)
    ensures
        match r {
            Some(v) => incoming_parts(filename@) == Some(text::texts(v@)) && v@.len() > 0,
            None => incoming_parts(filename@) is None,
        },
{
    let name = slash_chars(filename);
    if name.len() > 0 && name[0] == '/' {
        return None;
    }
    let parts = split_name(&name);
    let ghost ps = name_parts(slashed(filename@));
    proof {
        lemma_parts(slashed(filename@));
    }
    if parts.len() == 0 || parts.len() > MAX_PARTS {
        return None;
    }
    assert(ps[0] == parts@[0]@);
    let head = text::chars_of(parts[0].as_str());
    if head[0] == '.' {
        return None;
    }
    let mut i: usize = 0;
    while i < parts.len()
        invariant
            i <= parts.len(),
            ps == text::texts(parts@),
            ps == name_parts(slashed(filename@)),
            forall|j: int| 0 <= j < i ==> !bad_part(#[trigger] ps[j]),
        decreases parts.len() - i,
    {
        assert(ps[i as int] == parts@[i as int]@);
        if is_bad_part(parts[i].as_str()) {
            return None;
        }
        i = i + 1;
    }
    Some(parts)
}

/// What stands at the place of a folder.
#[derive(Clone, Copy, Debug, PartialEq, Eq, Structural)]
pub enum Place {
    Folder,
    /// A file, or a link to anything.
    Other,
    Nothing,
}

/// What to do about a folder of an incoming name.
#[derive(Clone, Copy, Debug, PartialEq, Eq, Structural)]
pub enum FolderStep {
    Enter,
    /// Create it, and remember that it was created.
    Create,
    Refuse,
}

/// What to do about a folder of an incoming name: links are not followed.
pub fn folder_step(there: Place) -> (r: FolderStep)
    ensures
        r == match there {
            Place::Folder => FolderStep::Enter,
            Place::Other => FolderStep::Refuse,
            Place::Nothing => FolderStep::Create,
        },
{
    match there {
        Place::Folder => FolderStep::Enter,
        Place::Other => FolderStep::Refuse,
        Place::Nothing => FolderStep::Create,
    }
}

// ---------------------------------------------------------------- names that are free
/// So many names are tried for a file.
pub const MAX_NAMES: u32 = 10_000;

/// Position of the last dot of a name; -1 if there is none.
pub open spec fn last_dot(s: Seq<char>) -> int
    decreases s.len(),
{
    if s.len() == 0 {
        -1
    } else if s.last() == '.' {
        s.len() - 1
    } else {
        last_dot(s.drop_last())
    }
}

/// Where the extension of a name starts, with its dot: at the last dot, unless that is
/// the first character; a name without extension ends there.
pub open spec fn extension_start(name: Seq<char>) -> int {
    if last_dot(name) > 0 {
        last_dot(name)
    } else {
        name.len() as int
    }
}

/// The name number `i` that is tried for a file: the name itself, then `name (1).ext`,
/// `name (2).ext` and so on.
pub open spec fn numbered(name: Seq<char>, i: nat) -> Seq<char> {
    let d = extension_start(name);
    if i == 0 {
        name
    } else {
        name.take(d) + " ("@ + text::dec(i) + ")"@ + name.skip(d)
    }
}

proof fn lemma_last_dot(s: Seq<char>)
    ensures
        -1 <= last_dot(s) < s.len(),
    decreases s.len(),
{
    if s.len() > 0 && s.last() != '.' {
        lemma_last_dot(s.drop_last());
    }
}

/// Where the extension of a name starts.
fn find_extension(v: &Vec<char>) -> (r: usize)
    ensures
        r == extension_start(v@),
        r <= v.len(),
{
    let mut n: usize = v.len();
    assert(v@.take(n as int) =~= v@);
    while n > 0 && v[n - 1] != '.'
        invariant
            n <= v.len(),
            last_dot(v@) == last_dot(v@.take(n as int)),
        decreases n,
    {
        assert(v@.take(n as int).drop_last() =~= v@.take(n - 1));
        n = n - 1;
    }
    if n > 1 {
        n - 1
    } else {
        v.len()
    }
}

/// The name number `i` that is tried for a file.
pub fn unique_path(name: &str, i: u32) -> (r: String)
    ensures
        r@ == numbered(name@, i as nat),
{
    if i == 0 {
        return name.to_owned();
    }
    let v = text::chars_of(name);
    let d: usize = find_extension(&v);
    let mut s = text::text_range(&v, 0, d);
    assert(s@ =~= name@.take(d as int));
    s.append(" (");
    text::push_dec(&mut s, i as u64);
    s.append(")");
    let ext = text::text_range(&v, d, v.len());
    assert(ext@ =~= name@.skip(d as int));
    s.append(ext.as_str());
    s
}

/// What to do when it is known whether name number `i` is taken.
#[derive(Clone, Copy, Debug, PartialEq, Eq, Structural)]
pub enum NameStep {
    Use(u32),
    Try(u32),
    /// All names are taken, and nothing may be overwritten.
    Refuse,
}

/// The first name that is free is used.
pub open spec fn name_step(i: u32, taken: bool) -> NameStep {
    if !taken {
        NameStep::Use(i)
    } else if i + 1 < MAX_NAMES {
        NameStep::Try((i + 1) as u32)
    } else {
        NameStep::Refuse
    }
}

/// What to do next with name number `i`.
pub fn next_name(i: u32, taken: bool) -> (r: NameStep)
    ensures
        r == name_step(i, taken),
{
    if !taken {
        NameStep::Use(i)
    } else if i < MAX_NAMES - 1 {
        NameStep::Try(i + 1)
    } else {
        NameStep::Refuse
    }
}

/// Where the search for a free name ends that has come to name number `i`; `taken` tells of
/// each number whether its name is taken.
pub open spec fn settled(taken: spec_fn(u32) -> bool, i: u32) -> Option<u32>
    decreases MAX_NAMES - i,
{
    match name_step(i, taken(i)) {
        NameStep::Use(n) => Some(n),
        NameStep::Try(n) => settled(taken, n),
        NameStep::Refuse => None,
    }
}

/// An incoming file overwrites nothing: it gets the first name that is free, and is refused
/// only if all are taken.
pub proof fn law_nothing_is_overwritten(taken: spec_fn(u32) -> bool)
    ensures
        match settled(taken, 0) {
            Some(n) => n < MAX_NAMES && !taken(n) && forall|k: u32| k < n ==> #[trigger] taken(k),
            None => forall|k: u32| k < MAX_NAMES ==> #[trigger] taken(k),
        },
{
    lemma_settled(taken, 0);
}

proof fn lemma_settled(taken: spec_fn(u32) -> bool, i: u32)
    requires
        i < MAX_NAMES,
        forall|k: u32| k < i ==> #[trigger] taken(k),
    ensures
        match settled(taken, i) {
            Some(n) => n < MAX_NAMES && !taken(n) && forall|k: u32| k < n ==> #[trigger] taken(k),
            None => forall|k: u32| k < MAX_NAMES ==> #[trigger] taken(k),
        },
    decreases MAX_NAMES - i,
{
    if taken(i) && i + 1 < MAX_NAMES {
        lemma_settled(taken, (i + 1) as u32);
    }
}

/// The names that are tried for a file are all different.
pub proof fn law_tried_names_differ(name: Seq<char>, i: nat, j: nat)
    requires
        i != j,
    ensures
        numbered(name, i) != numbered(name, j),
{
    lemma_last_dot(name);
    reveal_strlit(" (");
    reveal_strlit(")");
    let d = extension_start(name);
    let a = numbered(name, i);
    let b = numbered(name, j);
    text::lemma_dec(i);
    text::lemma_dec(j);
    if i > 0 && j > 0 && a == b {
        let n = text::dec(i).len();
        let m = text::dec(j).len();
        assert(a.len() == name.len() + 3 + n);
        assert(b.len() == name.len() + 3 + m);
        assert(a.subrange(d + 2, d + 2 + n) =~= text::dec(i));
        assert(b.subrange(d + 2, d + 2 + m) =~= text::dec(j));
    }
}

// ---------------------------------------------------------------- names that are asked for
/// A component of a path, as the system sees it.
#[derive(Debug)]
pub enum Component {
    /// A drive or a share.
    Prefix,
    RootDir,
    CurDir,
    ParentDir,
    Normal(String),
}

/// The names along a path; nothing if it leaves its folder.
pub open spec fn plain_names(cs: Seq<Component>) -> Option<Seq<Seq<char>>>
    decreases cs.len(),
{
    if cs.len() == 0 {
        Some(Seq::empty())
    } else {
        match (plain_names(cs.drop_last()), cs.last()) {
            (Some(v), Component::Normal(s)) => Some(v.push(s@)),
            (Some(v), Component::CurDir) => Some(v),
            _ => None,
        }
    }
}

proof fn lemma_plain_prefix(cs: Seq<Component>, n: int)
    requires
        0 <= n <= cs.len(),
        plain_names(cs.take(n)) is None,
    ensures
        plain_names(cs) is None,
    decreases cs.len(),
{
    if n == cs.len() {
        assert(cs.take(n) =~= cs);
    } else {
        assert(cs.drop_last().take(n) =~= cs.take(n));
        lemma_plain_prefix(cs.drop_last(), n);
    }
}

/// The names along a requested path below the root folder of a server, where the system
/// sees these components in it. There is no answer for an empty name, one that holds a zero,
/// leads upwards or is absolute, or names the root itself.
pub fn resolve_components(filename: &str, components: &Vec<Component>) -> (r: Option<Vec<String>>)
    ensures
        match r {
            Some(v) => {
                &&& plain_names(components@) == Some(text::texts(v@))
                &&& v@.len() > 0
                &&& filename@.len() > 0
                &&& !filename@.contains('\0')
            },
            None => {
                ||| filename@.len() == 0
                ||| filename@.contains('\0')
                ||| plain_names(components@) is None
                ||| plain_names(components@)->0.len() == 0
            },
        },
{
    let v = text::chars_of(filename);
    proof {
        text::lemma_find(filename@, '\0');
    }
    let nul: usize = text::find_char(&v, '\0');
    if v.len() == 0 || nul < v.len() {
        proof {
            if nul < v.len() {
                assert(filename@[nul as int] == '\0');
            }
        }
        return None;
    }
    let mut out: Vec<String> = Vec::new();
    let mut i: usize = 0;
    assert(text::texts(out@) =~= Seq::empty());
    while i < components.len()
        invariant
            i <= components.len(),
            plain_names(components@.take(i as int)) == Some(text::texts(out@)),
        decreases components.len() - i,
    {
        let ghost now = components@.take(i + 1);
        assert(now.drop_last() =~= components@.take(i as int));
        let ghost before = out@;
        match &components[i] {
            Component::Normal(s) => {
                out.push(s.clone());
                assert(text::texts(out@) =~= text::texts(before).push(s@));
            },
            Component::CurDir => {},
            _ => {
                proof {
                    lemma_plain_prefix(components@, i + 1);
                }
                return None;
            },
        }
        i = i + 1;
    }
    assert(components@.take(i as int) =~= components@);
    if out.len() == 0 {
        return None;
    }
    Some(out)
}

/// The names along a requested path below the root folder of a server. There is no answer
/// for a name that is empty, holds a zero, is absolute, leads upwards, or names the root
/// itself.
pub open spec fn requested_names(filename: Seq<char>) -> Option<Seq<Seq<char>>> {
    let ps = name_parts(filename);
    if filename.len() == 0 || filename.contains('\0') || is_absolute(filename) || ps.contains(
        ".."@,
    ) || ps.len() == 0 {
        None
    } else {
        Some(ps)
    }
}

/// Whether every system reads a name in the same way: there is no backslash that may separate
/// names, and no letter of a drive in front.
pub open spec fn reads_alike(filename: Seq<char>) -> bool {
    !filename.contains('\\') && !(filename.len() > 1 && filename[1] == ':')
}

/// Whether these can be the names along a requested path: its parts between slashes or, where
/// a backslash separates too, those between both. None leads upwards.
pub open spec fn possible_names(filename: Seq<char>, ps: Seq<Seq<char>>) -> bool {
    &&& !ps.contains(".."@)
    &&& ps == name_parts(filename) || ps == name_parts(slashed(filename))
}

/// A name without parts is made of slashes and dots.
proof fn lemma_no_parts(s: Seq<char>)
    requires
        name_parts(s).len() == 0,
    ensures
        forall|i: int| 0 <= i < s.len() ==> s[i] == '/' || #[trigger] s[i] == '.',
    decreases s.len(),
{
    text::lemma_find(s, '/');
    reveal_strlit(".");
    let i = text::find(s, '/') as int;
    let p = s.take(i);
    assert(p.len() == 0 || p == "."@);
    assert forall|k: int| 0 <= k < i implies #[trigger] s[k] == '.' by {
        assert(s[k] == p[k]);
    }
    if i < s.len() {
        let t = s.skip(i + 1);
        lemma_no_parts(t);
        assert forall|k: int| i < k < s.len() implies s[k] == '/' || #[trigger] s[k] == '.' by {
            assert(s[k] == t[k - i - 1]);
        }
    }
}

/// The names along a requested path below the root folder of a server. Whether a backslash
/// separates names, and whether a letter and a colon stand for a drive, is up to the system;
/// whatever it is, a name that starts with a slash or leads upwards is refused, and what is
/// accepted are the parts of the name.
pub fn resolve_in_root(filename: &str) -> (r: Option<Vec<String>>)
    ensures
        requested_names(filename@) is None ==> r is None,
        reads_alike(filename@) ==> match r {
            Some(v) => requested_names(filename@) == Some(text::texts(v@)),
            None => requested_names(filename@) is None,
        },
        r matches Some(v) ==> v@.len() > 0 && possible_names(filename@, text::texts(v@)),
{
    proof {
        if name_parts(filename@).len() == 0 {
            lemma_no_parts(filename@);
            assert(reads_alike(filename@));
        }
    }
    let components = outside::components_of(filename);
    resolve_components(filename, &components)
}

/// Whatever name a client asks for, and however the system reads it, what is accepted of it
/// are plain names, so that none leads upwards or to the root.
pub proof fn law_requested_stays_inside(filename: Seq<char>, ps: Seq<Seq<char>>)
    requires
        possible_names(filename, ps),
        !filename.contains('\0'),
    ensures
        forall|i: int| 0 <= i < ps.len() ==> {
            let p = #[trigger] ps[i];
            &&& p.len() > 0
            &&& p != "."@
            &&& p != ".."@
            &&& !p.contains('/')
            &&& !p.contains('\0')
        },
        requested_names(filename) matches Some(qs) ==> possible_names(filename, qs),
{
    let s = if ps == name_parts(filename) {
        filename
    } else {
        slashed(filename)
    };
    lemma_parts(s);
    assert(!s.contains('\0')) by {
        if s.contains('\0') {
            let k = choose|k: int| 0 <= k < s.len() && s[k] == '\0';
            assert(filename[k] == '\0');
        }
    }
    assert forall|i: int| 0 <= i < ps.len() implies !(#[trigger] ps[i]).contains('\0') && ps[i]
        != ".."@ by {
        let p = ps[i];
        if p.contains('\0') {
            let k = choose|k: int| 0 <= k < p.len() && p[k] == '\0';
            assert(s.contains(p[k]));
        }
    }
}

/// Whether a file may be read: `inside` says whether its true place, with all links
/// followed, lies below the root; it is unknown if there is no such file.
pub fn may_read(inside: Option<bool>) -> (r: bool)
    ensures
        r == (inside == Some(true)),
{
    match inside {
        Some(b) => b,
        None => false,
    }
}

/// Whether a file may be written: the true place of its folder must lie below the root,
/// and a link must not stand at its own place. `link` is unknown if nothing stands there.
pub fn may_write(folder_inside: Option<bool>, link: Option<bool>) -> (r: bool)
    ensures
        r == (folder_inside == Some(true) && link != Some(true)),
{
    let inside = match folder_inside {
        Some(b) => b,
        None => false,
    };
    let is_link = match link {
        Some(b) => b,
        None => false,
    };
    inside && !is_link
}

// ---------------------------------------------------------------- what names mean
/// The parts of a name stand between its slashes, in their order; an empty part and a single
/// dot are none.
pub proof fn law_parts_between_slashes(a: Seq<char>, b: Seq<char>)
    ensures
        name_parts(a + seq!['/'] + b) == name_parts(a) + name_parts(b),
        !a.contains('/') ==> name_parts(a) == if a.len() == 0 || a == seq!['.'] {
            Seq::empty()
        } else {
            seq![a]
        },
    decreases a.len(),
{
    reveal_strlit(".");
    assert("."@ =~= seq!['.']);
    let s = a + seq!['/'] + b;
    text::lemma_find(a, '/');
    let i = text::find(a, '/') as int;
    if i >= a.len() {
        assert(!a.contains('/'));
        text::law_first_place_is_found(a, '/', b);
        assert(s.take(a.len() as int) =~= a);
        assert(a.take(i) =~= a);
        assert(s.skip(a.len() as int + 1) =~= b);
    } else {
        assert(a.contains(a[i]));
        let before = a.take(i);
        let rest = a.skip(i + 1);
        assert forall|k: int| 0 <= k < before.len() implies before[k] != '/' by {
            assert(before[k] == a[k]);
        }
        text::law_first_place_is_found(before, '/', rest + seq!['/'] + b);
        assert(s =~= before + seq!['/'] + (rest + seq!['/'] + b));
        assert(s.take(i) =~= before);
        assert(s.skip(i + 1) =~= rest + seq!['/'] + b);
        law_parts_between_slashes(rest, b);
        assert(name_parts(s) =~= name_parts(a) + name_parts(b));
    }
}

/// In an incoming name a backslash counts as a slash; every other character stays.
pub proof fn law_backslash_is_a_slash(s: Seq<char>, i: int)
    requires
        0 <= i < s.len(),
    ensures
        slashed(s).len() == s.len(),
        slashed(s)[i] == if s[i] == '\\' {
            '/'
        } else {
            s[i]
        },
{
}

/// Every incoming name is accepted, with its parts in their order, that does not start with
/// a slash or a backslash, has 1 to 32 parts, the first of them not hidden, and none that is
/// two dots or holds a zero or a colon; and no other.
pub proof fn law_ordinary_names_are_accepted(filename: Seq<char>)
    ensures
        ({
            let ps = name_parts(slashed(filename));
            let fine = {
                &&& filename.len() > 0
                &&& filename[0] != '/'
                &&& filename[0] != '\\'
                &&& 1 <= ps.len() <= 32
                &&& ps[0][0] != '.'
                &&& forall|i: int|
                    0 <= i < ps.len() ==> {
                        let p = #[trigger] ps[i];
                        &&& !(p.len() == 2 && p[0] == '.' && p[1] == '.')
                        &&& forall|k: int|
                            0 <= k < p.len() ==> #[trigger] p[k] != '\0' && p[k] != ':'
                    }
            };
            incoming_parts(filename) == if fine {
                Some(ps)
            } else {
                None
            }
        }),
{
    reveal_strlit("..");
    let s = slashed(filename);
    let ps = name_parts(s);
    assert forall|i: int| 0 <= i < ps.len() implies (bad_part(#[trigger] ps[i]) <==> (ps[i].len() == 2
        && ps[i][0] == '.' && ps[i][1] == '.') || exists|k: int|
        0 <= k < ps[i].len() && (#[trigger] ps[i][k] == '\0' || ps[i][k] == ':')) by {
        let p = ps[i];
        if p.len() == 2 && p[0] == '.' && p[1] == '.' {
            assert(p =~= ".."@);
        }
        if p.contains('\0') {
            let k = choose|k: int| 0 <= k < p.len() && p[k] == '\0';
            assert(p[k] == '\0');
        }
        if p.contains(':') {
            let k = choose|k: int| 0 <= k < p.len() && p[k] == ':';
            assert(p[k] == ':');
        }
    }
    if filename.len() > 0 {
        assert(s[0] == if filename[0] == '\\' {
            '/'
        } else {
            filename[0]
        });
    } else {
        text::lemma_find(s, '/');
        assert(s.take(0).len() == 0);
        assert(ps.len() == 0);
    }
}

/// A name without slashes, zeros and colons that does not start with a dot is accepted as it
/// is.
pub proof fn law_simple_name_is_kept(s: Seq<char>)
    requires
        s.len() > 0,
        s[0] != '.',
        forall|k: int|
            0 <= k < s.len() ==> #[trigger] s[k] != '/' && s[k] != '\\' && s[k] != '\0' && s[k]
                != ':',
    ensures
        incoming_parts(s) == Some(seq![s]),
{
    assert(slashed(s) =~= s);
    law_parts_between_slashes(s, s);
    assert(!(s =~= seq!['.']));
    law_ordinary_names_are_accepted(s);
}

proof fn lemma_last_dot_is(s: Seq<char>)
    ensures
        -1 <= last_dot(s) < s.len(),
        last_dot(s) >= 0 ==> s[last_dot(s)] == '.',
        forall|k: int| last_dot(s) < k < s.len() ==> #[trigger] s[k] != '.',
    decreases s.len(),
{
    if s.len() > 0 && s.last() != '.' {
        let t = s.drop_last();
        lemma_last_dot_is(t);
        assert forall|k: int| last_dot(s) < k < s.len() implies #[trigger] s[k] != '.' by {
            if k < t.len() {
                assert(t[k] == s[k]);
            }
        }
    }
}

/// A further copy of a file gets its number in brackets before the extension; where there is
/// no extension, or the only dot stands in front, at the end. The first keeps its name.
pub proof fn law_copies_are_numbered(stem: Seq<char>, ext: Seq<char>, name: Seq<char>, i: nat)
    requires
        stem.len() > 0,
        !ext.contains('.'),
        forall|k: int| 0 < k < name.len() ==> #[trigger] name[k] != '.',
        i > 0,
    ensures
        numbered(stem + seq!['.'] + ext, i) == stem + " ("@ + text::dec(i) + ")"@ + seq!['.'] + ext,
        numbered(name, i) == name + " ("@ + text::dec(i) + ")"@,
        numbered(name, 0) == name,
{
    let s = stem + seq!['.'] + ext;
    lemma_last_dot_is(s);
    lemma_last_dot_is(name);
    let d = last_dot(s);
    assert(s[stem.len() as int] == '.');
    if d > stem.len() {
        assert(s[d] == ext[d - stem.len() - 1]);
        assert(ext.contains(ext[d - stem.len() - 1]));
    }
    assert(d == stem.len());
    assert(s.take(d) =~= stem);
    assert(s.skip(d) =~= seq!['.'] + ext);
    assert(numbered(s, i) =~= stem + " ("@ + text::dec(i) + ")"@ + seq!['.'] + ext);
    assert(last_dot(name) <= 0);
    assert(name.take(name.len() as int) =~= name);
    assert(name.skip(name.len() as int) =~= Seq::<char>::empty());
    assert(numbered(name, i) =~= name + " ("@ + text::dec(i) + ")"@);
}

/// Ten thousand names are tried for a file, one after the other.
pub proof fn law_names_are_tried_in_order(i: u32, taken: spec_fn(u32) -> bool)
    requires
        i < 10_000,
    ensures
        name_step(i, false) == NameStep::Use(i),
        i < 9_999 ==> name_step(i, true) == NameStep::Try((i + 1) as u32),
        i == 9_999 ==> name_step(i, true) == NameStep::Refuse,
        settled(taken, 0) is None <==> forall|k: u32| k < 10_000 ==> #[trigger] taken(k),
{
    law_nothing_is_overwritten(taken);
}

/// The plain names along a path are those of its components in their order; the folder
/// itself adds none, and anything else leads out of it.
pub proof fn law_components_are_read(a: Seq<Component>, b: Seq<Component>, c: Component)
    ensures
        plain_names(a + b) == match (plain_names(a), plain_names(b)) {
            (Some(v), Some(w)) => Some(v + w),
            _ => None,
        },
        plain_names(seq![c]) == match c {
            Component::Normal(s) => Some(seq![s@]),
            Component::CurDir => Some(Seq::empty()),
            Component::Prefix => None,
            Component::RootDir => None,
            Component::ParentDir => None,
        },
        plain_names(Seq::empty()) == Some(Seq::<Seq<char>>::empty()),
    decreases b.len(),
{
    let one = seq![c];
    assert(one.drop_last() =~= Seq::<Component>::empty());
    assert(plain_names(one.drop_last()) == Some(Seq::<Seq<char>>::empty()));
    if c is Normal {
        assert(Seq::<Seq<char>>::empty().push(c->Normal_0@) =~= seq![c->Normal_0@]);
    }
    let s = a + b;
    if b.len() == 0 {
        assert(s =~= a);
        if plain_names(a) is Some {
            assert(plain_names(a)->0 + Seq::<Seq<char>>::empty() =~= plain_names(a)->0);
        }
    } else {
        assert(s.drop_last() =~= a + b.drop_last());
        assert(s.last() == b.last());
        law_components_are_read(a, b.drop_last(), c);
        if let (Some(v), Some(w)) = (plain_names(a), plain_names(b.drop_last())) {
            if let Component::Normal(t) = b.last() {
                assert((v + w).push(t@) =~= v + w.push(t@));
            }
        }
    }
}

/// Every name that a client may ask for is accepted with its parts: one that is not empty,
/// holds no zero, does not start with a slash, has a part and none that is two dots. Every
/// system reads it alike, unless it holds a backslash or its second character is a colon.
pub proof fn law_ordinary_requests_are_accepted(s: Seq<char>)
    ensures
        ({
            let ps = name_parts(s);
            let fine = {
                &&& s.len() > 0
                &&& s[0] != '/'
                &&& forall|k: int| 0 <= k < s.len() ==> #[trigger] s[k] != '\0'
                &&& ps.len() > 0
                &&& forall|i: int|
                    0 <= i < ps.len() ==> !((#[trigger] ps[i]).len() == 2 && ps[i][0] == '.'
                        && ps[i][1] == '.')
            };
            requested_names(s) == if fine {
                Some(ps)
            } else {
                None
            }
        }),
        reads_alike(s) <==> (forall|k: int| 0 <= k < s.len() ==> #[trigger] s[k] != '\\') && (
        s.len() < 2 || s[1] != ':'),
{
    reveal_strlit("..");
    let ps = name_parts(s);
    if s.contains('\0') {
        let k = choose|k: int| 0 <= k < s.len() && s[k] == '\0';
        assert(s[k] == '\0');
    }
    if s.contains('\\') {
        let k = choose|k: int| 0 <= k < s.len() && s[k] == '\\';
        assert(s[k] == '\\');
    }
    if ps.contains(".."@) {
        let i = choose|i: int| 0 <= i < ps.len() && ps[i] == ".."@;
        assert(ps[i].len() == 2 && ps[i][0] == '.' && ps[i][1] == '.');
    }
    assert forall|i: int|
        0 <= i < ps.len() && (#[trigger] ps[i]).len() == 2 && ps[i][0] == '.' && ps[i][1]
            == '.' implies ps.contains(".."@) by {
        assert(ps[i] =~= ".."@);
    }
}

} // verus!
