//! The addresses that were used lately, so that they need not be typed again, and the
//! folder for incoming files.
use crate::discover;
use crate::text;
use vstd::prelude::*;

verus! {

/// So many addresses are remembered.
pub const MAX_ENTRIES: usize = 15;

/// What is remembered between two runs of the program.
#[derive(Debug)]
pub struct History {
    /// Addresses without port, the one used last first.
    pub entries: Vec<String>,
    pub recv_dir: Option<String>,
}

#[verifier::ext_equal]
pub struct HistoryView {
    pub entries: Seq<Seq<char>>,
    pub recv_dir: Option<Seq<char>>,
}

impl View for History {
    type V = HistoryView;

    open spec fn view(&self) -> HistoryView {
        HistoryView {
            entries: text::texts(self.entries@),
            recv_dir: discover::text_view(self.recv_dir),
        }
    }
}

/// The texts that differ from `x`.
pub open spec fn without(v: Seq<Seq<char>>, x: Seq<char>) -> Seq<Seq<char>>
    decreases v.len(),
{
    if v.len() == 0 {
        v
    } else if v.last() == x {
        without(v.drop_last(), x)
    } else {
        without(v.drop_last(), x).push(v.last())
    }
}

/// The addresses after one has been used: it comes first, the others follow in their
/// order, and what is too many falls off the end.
pub open spec fn used(v: Seq<Seq<char>>, host: Seq<char>) -> Seq<Seq<char>> {
    let all = seq![host] + without(v, host);
    if all.len() > MAX_ENTRIES {
        all.take(MAX_ENTRIES as int)
    } else {
        all
    }
}

/// An address without its port. Where there are several colons, it is an IPv6 address
/// and stays as it is.
pub open spec fn portless(s: Seq<char>) -> Seq<char> {
    let i = text::find(s, ':') as int;
    if i < s.len() && !s.skip(i + 1).contains(':') && text::number(s.skip(i + 1), 65535) is Some {
        s.take(i)
    } else {
        s
    }
}

/// The addresses of an old file without ports, each once.
pub open spec fn cleaned(v: Seq<Seq<char>>) -> Seq<Seq<char>>
    decreases v.len(),
{
    if v.len() == 0 {
        v
    } else {
        let rest = cleaned(v.drop_last());
        let e = portless(v.last());
        if rest.contains(e) {
            rest
        } else {
            rest.push(e)
        }
    }
}

/// An address without its port.
pub fn strip_port(entry: &str) -> (r: String)
    ensures
        r@ == portless(entry@),
{
    let v = text::chars_of(entry);
    let i: usize = text::find_char(&v, ':');
    if i >= v.len() {
        return entry.to_owned();
    }
    let port = text::chars_range(&v, i + 1, v.len());
    assert(port@ =~= entry@.skip(i + 1));
    let again: usize = text::find_char(&port, ':');
    proof {
        text::lemma_find(port@, ':');
        if again < port.len() {
            assert(port@[again as int] == ':');
        }
    }
    if again == port.len() && text::parse_number(&port, 65535).is_some() {
        let host = text::text_range(&v, 0, i);
        assert(host@ =~= entry@.take(i as int));
        return host;
    }
    entry.to_owned()
}

fn contains_text(v: &Vec<String>, s: &str) -> (r: bool)
    ensures
        r == text::texts(v@).contains(s@),
{
    let ghost t = text::texts(v@);
    let mut i: usize = 0;
    while i < v.len()
        invariant
            i <= v.len(),
            t == text::texts(v@),
            forall|j: int| 0 <= j < i ==> #[trigger] t[j] != s@,
        decreases v.len() - i,
    {
        assert(t[i as int] == v@[i as int]@);
        if text::same_text(v[i].as_str(), s) {
            return true;
        }
        i = i + 1;
    }
    false
}

/// The texts that differ from `s`.
fn drop_text(v: &Vec<String>, s: &str) -> (r: Vec<String>)
    ensures
        text::texts(r@) == without(text::texts(v@), s@),
{
    let ghost t = text::texts(v@);
    let mut out: Vec<String> = Vec::new();
    let mut i: usize = 0;
    assert(text::texts(out@) =~= without(t.take(0), s@));
    while i < v.len()
        invariant
            i <= v.len(),
            t == text::texts(v@),
            text::texts(out@) == without(t.take(i as int), s@),
        decreases v.len() - i,
    {
        assert(t.take(i + 1).drop_last() =~= t.take(i as int));
        assert(t[i as int] == v@[i as int]@);
        if !text::same_text(v[i].as_str(), s) {
            let ghost before = text::texts(out@);
            out.push(v[i].clone());
            assert(text::texts(out@) =~= before.push(t[i as int]));
        }
        i = i + 1;
    }
    assert(t.take(i as int) =~= t);
    out
}

impl Default for History {
    fn default() -> (r: History)
        ensures
            r@ == (HistoryView { entries: Seq::empty(), recv_dir: None }),
    {
        let r = History { entries: Vec::new(), recv_dir: None };
        assert(r@.entries =~= Seq::empty());
        r
    }
}

impl History {
    /// What is remembered, from what the file holds, if it could be read: addresses of an
    /// old file lose their ports, and each is kept once.
    pub fn load(stored: Option<History>) -> (r: History)
        ensures
            match stored {
                Some(h) => r@ == (HistoryView { entries: cleaned(h@.entries), ..h@ }),
                None => r@ == (HistoryView { entries: Seq::empty(), recv_dir: None }),
            },
    {
        let h = match stored {
            None => {
                return History::default();
            },
            Some(h) => h,
        };
        let ghost t = text::texts(h.entries@);
        let mut clean: Vec<String> = Vec::new();
        let mut i: usize = 0;
        assert(text::texts(clean@) =~= cleaned(t.take(0)));
        while i < h.entries.len()
            invariant
                i <= h.entries.len(),
                t == text::texts(h.entries@),
                text::texts(clean@) == cleaned(t.take(i as int)),
            decreases h.entries.len() - i,
        {
            assert(t.take(i + 1).drop_last() =~= t.take(i as int));
            assert(t[i as int] == h.entries@[i as int]@);
            let e = strip_port(h.entries[i].as_str());
            if !contains_text(&clean, e.as_str()) {
                let ghost before = text::texts(clean@);
                clean.push(e);
                assert(text::texts(clean@) =~= before.push(e@));
            }
            i = i + 1;
        }
        assert(t.take(i as int) =~= t);
        History { entries: clean, recv_dir: h.recv_dir }
    }

    /// An address has been used. The history is to be saved.
    pub fn push(&mut self, host: &str)
        ensures
            final(self)@ == (HistoryView { entries: used(old(self)@.entries, host@), ..old(self)@ }),
    {
        let mut kept = drop_text(&self.entries, host);
        let ghost rest = text::texts(kept@);
        kept.insert(0, host.to_owned());
        assert(text::texts(kept@) =~= seq![host@] + rest);
        let ghost all = kept@;
        kept.truncate(MAX_ENTRIES);
        assert(text::texts(kept@) =~= used(old(self)@.entries, host@));
        self.entries = kept;
    }

    /// Another folder for incoming files. The history is to be saved.
    pub fn set_recv_dir(&mut self, d: &str)
        ensures
            final(self)@ == (HistoryView { recv_dir: Some(d@), ..old(self)@ }),
    {
        self.recv_dir = Some(d.to_owned());
    }

    /// Forgets an address. The history is to be saved.
    pub fn remove(&mut self, entry: &str)
        ensures
            final(self)@ == (HistoryView {
                entries: without(old(self)@.entries, entry@),
                ..old(self)@
            }),
    {
        self.entries = drop_text(&self.entries, entry);
    }
}

// ---------------------------------------------------------------- laws
/// Whether no text occurs twice.
pub open spec fn distinct(v: Seq<Seq<char>>) -> bool {
    forall|i: int, j: int| 0 <= i < j < v.len() ==> #[trigger] v[i] != #[trigger] v[j]
}

proof fn lemma_push_distinct(v: Seq<Seq<char>>, x: Seq<char>)
    requires
        distinct(v),
        !v.contains(x),
    ensures
        distinct(v.push(x)),
{
    let w = v.push(x);
    assert forall|i: int, j: int| 0 <= i < j < w.len() implies #[trigger] w[i] != #[trigger] w[j] by {
        assert(w[i] == v[i]);
        if j == v.len() {
            assert(v.contains(v[i]));
        }
    }
}

proof fn lemma_without(v: Seq<Seq<char>>, x: Seq<char>)
    ensures
        !without(v, x).contains(x),
        without(v, x).len() <= v.len(),
        forall|y: Seq<char>| #[trigger] without(v, x).contains(y) ==> v.contains(y),
        forall|y: Seq<char>| y != x && v.contains(y) ==> #[trigger] without(v, x).contains(y),
        distinct(v) ==> distinct(without(v, x)),
        !v.contains(x) ==> without(v, x) == v,
    decreases v.len(),
{
    if v.len() > 0 {
        let t = v.drop_last();
        lemma_without(t, x);
        let a = without(t, x);
        let w = without(v, x);
        assert(v[v.len() - 1] == v.last());
        assert forall|y: Seq<char>| t.contains(y) implies v.contains(y) by {
            let i = choose|i: int| 0 <= i < t.len() && t[i] == y;
            assert(v[i] == y);
        }
        assert forall|y: Seq<char>| v.contains(y) && y != v.last() implies t.contains(y) by {
            let i = choose|i: int| 0 <= i < v.len() && v[i] == y;
            assert(t[i] == y);
        }
        if distinct(v) {
            assert forall|i: int, j: int| 0 <= i < j < t.len() implies #[trigger] t[i]
                != #[trigger] t[j] by {
                assert(v[i] != v[j]);
            }
        }
        if v.last() != x {
            assert forall|y: Seq<char>| #[trigger] w.contains(y) implies v.contains(y) && y != x by {
                let i = choose|i: int| 0 <= i < w.len() && w[i] == y;
                if i < a.len() {
                    assert(a[i] == y);
                    assert(a.contains(y));
                }
            }
            assert forall|y: Seq<char>| y != x && v.contains(y) implies #[trigger] w.contains(y) by {
                if y == v.last() {
                    assert(w[w.len() - 1] == y);
                } else {
                    assert(a.contains(y));
                    let i = choose|i: int| 0 <= i < a.len() && a[i] == y;
                    assert(w[i] == y);
                }
            }
            if distinct(v) {
                if a.contains(v.last()) {
                    assert(t.contains(v.last()));
                    let i = choose|i: int| 0 <= i < t.len() && t[i] == v.last();
                    assert(v[i] != v[v.len() - 1]);
                }
                lemma_push_distinct(a, v.last());
            }
            if !v.contains(x) {
                assert(w =~= v);
            }
        }
    }
}

/// The address used last stands first, no address is listed twice if none was before, and
/// the list does not grow beyond its limit.
pub proof fn law_last_used_comes_first(v: Seq<Seq<char>>, host: Seq<char>)
    ensures
        used(v, host).len() >= 1,
        used(v, host)[0] == host,
        used(v, host).len() <= MAX_ENTRIES,
        distinct(v) ==> distinct(used(v, host)),
        forall|y: Seq<char>| #[trigger] used(v, host).contains(y) ==> y == host || v.contains(y),
{
    lemma_without(v, host);
    let w = without(v, host);
    let all = seq![host] + w;
    let u = used(v, host);
    if distinct(v) {
        assert forall|i: int, j: int| 0 <= i < j < u.len() implies #[trigger] u[i] != #[trigger] u[j] by {
            assert(u[j] == w[j - 1]);
            if i == 0 {
                assert(w.contains(w[j - 1]));
            } else {
                assert(u[i] == w[i - 1]);
            }
        }
    }
    assert forall|y: Seq<char>| #[trigger] u.contains(y) implies y == host || v.contains(y) by {
        let i = choose|i: int| 0 <= i < u.len() && u[i] == y;
        if i > 0 {
            assert(w[i - 1] == y);
            assert(w.contains(y));
        }
    }
}

/// Using the same address again changes nothing.
pub proof fn law_using_again_changes_nothing(v: Seq<Seq<char>>, host: Seq<char>)
    requires
        distinct(v),
    ensures
        used(used(v, host), host) == used(v, host),
{
    law_last_used_comes_first(v, host);
    let u = used(v, host);
    let t = u.skip(1);
    assert(u =~= seq![host] + t);
    assert(!t.contains(host)) by {
        if t.contains(host) {
            let i = choose|i: int| 0 <= i < t.len() && t[i] == host;
            assert(u[0] != u[i + 1]);
        }
    }
    lemma_without_head(t, host);
    assert(seq![host] + t =~= u);
}

proof fn lemma_without_head(t: Seq<Seq<char>>, x: Seq<char>)
    requires
        !t.contains(x),
    ensures
        without(seq![x] + t, x) == t,
    decreases t.len(),
{
    let v = seq![x] + t;
    if t.len() == 0 {
        assert(v.drop_last() =~= Seq::empty());
        assert(without(v.drop_last(), x) =~= Seq::empty());
        assert(t =~= Seq::empty());
    } else {
        let s = t.drop_last();
        assert forall|i: int| 0 <= i < s.len() implies s[i] != x by {
            assert(t.contains(t[i]));
        }
        lemma_without_head(s, x);
        assert(v.drop_last() =~= seq![x] + s);
        assert(t.contains(t.last()));
        assert(s.push(t.last()) =~= t);
    }
}

/// What is removed is gone, and everything else stays.
pub proof fn law_removed_is_gone(v: Seq<Seq<char>>, x: Seq<char>, y: Seq<char>)
    requires
        x != y,
    ensures
        !without(v, x).contains(x),
        without(v, x).contains(y) <==> v.contains(y),
        !v.contains(x) ==> without(v, x) == v,
{
    lemma_without(v, x);
}

/// After loading, no address is listed twice.
pub proof fn law_loaded_is_distinct(v: Seq<Seq<char>>)
    ensures
        distinct(cleaned(v)),
        cleaned(v).len() <= v.len(),
    decreases v.len(),
{
    if v.len() > 0 {
        law_loaded_is_distinct(v.drop_last());
        let rest = cleaned(v.drop_last());
        let e = portless(v.last());
        if !rest.contains(e) {
            lemma_push_distinct(rest, e);
        }
    }
}

/// What was used last comes first; all others follow in their old order, without it, and of
/// all of them the first fifteen stay.
pub proof fn law_used_in_order(v: Seq<Seq<char>>, host: Seq<char>)
    ensures
        used(v, host) == ({
            let all = seq![host] + v.filter(|e: Seq<char>| e != host);
            if all.len() > 15 {
                all.take(15)
            } else {
                all
            }
        }),
{
    lemma_without_filters(v, host);
}

/// Removing takes one address away and keeps the others in their order.
pub proof fn law_removed_in_order(v: Seq<Seq<char>>, x: Seq<char>)
    ensures
        without(v, x) == v.filter(|e: Seq<char>| e != x),
{
    lemma_without_filters(v, x);
}

proof fn lemma_without_filters(v: Seq<Seq<char>>, x: Seq<char>)
    ensures
        without(v, x) == v.filter(|e: Seq<char>| e != x),
    decreases v.len(),
{
    reveal(Seq::filter);
    if v.len() > 0 {
        lemma_without_filters(v.drop_last(), x);
    }
}

/// A port behind an address is taken away: one colon with a number up to 65535 behind it. An
/// address without a colon, with several, or with something else behind it stays as it is.
pub proof fn law_port_is_taken_away(h: Seq<char>, p: Seq<char>, t: Seq<char>)
    requires
        !h.contains(':'),
        !p.contains(':'),
    ensures
        portless(h + seq![':'] + p) == if text::number(p, 65535) is Some {
            h
        } else {
            h + seq![':'] + p
        },
        portless(h) == h,
        portless(h + seq![':'] + p + seq![':'] + t) == h + seq![':'] + p + seq![':'] + t,
{
    let s = h + seq![':'] + p;
    text::law_first_place_is_found(h, ':', p);
    assert(s.skip(h.len() as int + 1) =~= p);
    assert(s.take(h.len() as int) =~= h);
    let rest = p + seq![':'] + t;
    let u = h + seq![':'] + p + seq![':'] + t;
    assert(u =~= h + seq![':'] + rest);
    text::law_first_place_is_found(h, ':', rest);
    assert(u.skip(h.len() as int + 1) =~= rest);
    assert(rest[p.len() as int] == ':');
}

/// What is loaded are the addresses without their ports, each once and in the order in which
/// they come first.
pub proof fn law_loaded_in_order(v: Seq<Seq<char>>, e: Seq<char>)
    ensures
        cleaned(Seq::empty()) == Seq::<Seq<char>>::empty(),
        cleaned(v.push(e)) == if cleaned(v).contains(portless(e)) {
            cleaned(v)
        } else {
            cleaned(v).push(portless(e))
        },
        forall|i: int| 0 <= i < v.len() ==> cleaned(v).contains(portless(#[trigger] v[i])),
        forall|x: Seq<char>| #[trigger]
            cleaned(v).contains(x) ==> exists|i: int|
                0 <= i < v.len() && portless(#[trigger] v[i]) == x,
    decreases v.len(),
{
    assert(v.push(e).drop_last() =~= v);
    if v.len() > 0 {
        let u = v.drop_last();
        law_loaded_in_order(u, v.last());
        let x = portless(v.last());
        let r = cleaned(u);
        assert forall|i: int| 0 <= i < v.len() implies cleaned(v).contains(portless(#[trigger] v[i])) by {
            if i < u.len() {
                assert(u[i] == v[i]);
                assert(r.contains(portless(u[i])));
                if !r.contains(x) {
                    let k = choose|k: int| 0 <= k < r.len() && r[k] == portless(u[i]);
                    assert(r.push(x)[k] == portless(u[i]));
                }
            } else if !r.contains(x) {
                assert(r.push(x).last() == x);
            }
        }
        assert forall|y: Seq<char>| #[trigger] cleaned(v).contains(y) implies exists|i: int|
            0 <= i < v.len() && portless(#[trigger] v[i]) == y by {
            if r.contains(y) {
                let i = choose|i: int| 0 <= i < u.len() && portless(#[trigger] u[i]) == y;
                assert(v[i] == u[i]);
            } else {
                let k = choose|k: int| 0 <= k < cleaned(v).len() && cleaned(v)[k] == y;
                if k < r.len() {
                    assert(r[k] == y);
                }
                assert(v[v.len() - 1] == v.last());
            }
        }
    }
}

} // verus!
