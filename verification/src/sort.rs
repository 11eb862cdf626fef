//! Sorting by a rank and a text. Equal keys keep their order, so the result is unique.
use vstd::prelude::*;

verus! {

/// What items are sorted by: first the rank, then the text.
pub struct SortKey {
    pub rank: u8,
    pub text: Vec<char>,
}

impl View for SortKey {
    type V = (u8, Seq<char>);

    open spec fn view(&self) -> (u8, Seq<char>) {
        (self.rank, self.text@)
    }
}

/// The keys as ranks and texts.
pub open spec fn keys_view(keys: Seq<SortKey>) -> Seq<(u8, Seq<char>)> {
    keys.map_values(|k: SortKey| k@)
}

/// Whether text `a` comes before text `b` in a dictionary ordered by code points.
pub open spec fn text_before(a: Seq<char>, b: Seq<char>) -> bool
    decreases a.len(),
{
    if b.len() == 0 {
        false
    } else if a.len() == 0 {
        true
    } else if a[0] == b[0] {
        text_before(a.skip(1), b.skip(1))
    } else {
        a[0] < b[0]
    }
}

/// Whether key `a` comes before key `b`.
pub open spec fn key_before(a: (u8, Seq<char>), b: (u8, Seq<char>)) -> bool {
    a.0 < b.0 || (a.0 == b.0 && text_before(a.1, b.1))
}

/// Whether item `i` comes before item `j`: by the keys, and where they are equal, by position.
pub open spec fn item_before(keys: Seq<(u8, Seq<char>)>, i: int, j: int) -> bool {
    key_before(keys[i], keys[j]) || (keys[i] == keys[j] && i < j)
}

/// Whether `order` lists the positions from `lo` up to `hi`, each once, in the order of
/// their items.
pub open spec fn sorts(keys: Seq<(u8, Seq<char>)>, lo: int, hi: int, order: Seq<usize>) -> bool {
    &&& order.len() == hi - lo
    &&& forall|p: int| 0 <= p < order.len() ==> lo <= #[trigger] order[p] < hi
    &&& forall|p: int, q: int|
        0 <= p < q < order.len() ==> item_before(
            keys,
            #[trigger] order[p] as int,
            #[trigger] order[q] as int,
        )
    &&& forall|k: int| lo <= k < hi ==> #[trigger] order.contains(k as usize)
}

proof fn lemma_text_order(a: Seq<char>, b: Seq<char>, c: Seq<char>)
    ensures
        !text_before(a, a),
        text_before(a, b) ==> !text_before(b, a),
        text_before(a, b) || text_before(b, a) || a == b,
        text_before(a, b) && text_before(b, c) ==> text_before(a, c),
    decreases a.len() + b.len() + c.len(),
{
    if a.len() > 0 && b.len() > 0 && c.len() > 0 {
        lemma_text_order(a.skip(1), b.skip(1), c.skip(1));
        if a[0] == b[0] && a.skip(1) == b.skip(1) {
            assert(a =~= seq![a[0]] + a.skip(1));
            assert(b =~= seq![b[0]] + b.skip(1));
        }
    } else if a.len() > 0 && b.len() > 0 {
        lemma_text_order(a.skip(1), b.skip(1), c);
        if a[0] == b[0] && a.skip(1) == b.skip(1) {
            assert(a =~= seq![a[0]] + a.skip(1));
            assert(b =~= seq![b[0]] + b.skip(1));
        }
    } else {
        if a.len() > 0 {
            lemma_text_order(a.skip(1), b, c);
        }
        if a.len() == 0 && b.len() == 0 {
            assert(a =~= b);
        }
    }
}

/// The order of items is strict, total and transitive.
pub proof fn law_item_order(keys: Seq<(u8, Seq<char>)>, i: int, j: int, k: int)
    ensures
        !item_before(keys, i, i),
        item_before(keys, i, j) ==> !item_before(keys, j, i),
        i != j ==> item_before(keys, i, j) || item_before(keys, j, i),
        item_before(keys, i, j) && item_before(keys, j, k) ==> item_before(keys, i, k),
{
    lemma_text_order(keys[i].1, keys[j].1, keys[k].1);
    lemma_text_order(keys[j].1, keys[i].1, keys[k].1);
    lemma_text_order(keys[j].1, keys[k].1, keys[i].1);
}

/// The place of item `x` in a list of sorted items, none of which it is, from `p` on.
proof fn lemma_place(keys: Seq<(u8, Seq<char>)>, o: Seq<usize>, x: int, p: int) -> (r: int)
    requires
        0 <= p <= o.len(),
        forall|q: int| 0 <= q < o.len() ==> #[trigger] o[q] != x,
        forall|q: int| 0 <= q < p ==> item_before(keys, #[trigger] o[q] as int, x),
    ensures
        p <= r <= o.len(),
        forall|q: int| 0 <= q < r ==> item_before(keys, #[trigger] o[q] as int, x),
        r < o.len() ==> item_before(keys, x, o[r] as int),
    decreases o.len() - p,
{
    if p == o.len() || item_before(keys, x, o[p] as int) {
        p
    } else {
        law_item_order(keys, x, o[p] as int, x);
        lemma_place(keys, o, x, p + 1)
    }
}

/// There is an order that sorts the items.
pub proof fn law_order_exists(keys: Seq<(u8, Seq<char>)>, n: int) -> (o: Seq<usize>)
    requires
        0 <= n <= usize::MAX,
    ensures
        sorts(keys, 0, n, o),
    decreases n,
{
    if n == 0 {
        Seq::empty()
    } else {
        let a = law_order_exists(keys, n - 1);
        let x = n - 1;
        let p = lemma_place(keys, a, x, 0);
        let o = a.insert(p, x as usize);
        assert forall|i: int, j: int| 0 <= i < j < o.len() implies item_before(
            keys,
            #[trigger] o[i] as int,
            #[trigger] o[j] as int,
        ) by {
            if i == p {
                law_item_order(keys, x, a[p] as int, a[j - 1] as int);
            } else if j != p {
                let i2 = if i < p {
                    i
                } else {
                    i - 1
                };
                let j2 = if j < p {
                    j
                } else {
                    j - 1
                };
                assert(o[i] == a[i2] && o[j] == a[j2]);
            }
        }
        assert forall|k: int| 0 <= k < n implies #[trigger] o.contains(k as usize) by {
            if k == x {
                assert(o[p] == k as usize);
            } else {
                assert(a.contains(k as usize));
                let q = choose|q: int| 0 <= q < a.len() && a[q] == k as usize;
                if q < p {
                    assert(o[q] == k as usize);
                } else {
                    assert(o[q + 1] == k as usize);
                }
            }
        }
        o
    }
}

/// There is only one order that sorts the items.
pub proof fn law_order_is_unique(
    keys: Seq<(u8, Seq<char>)>,
    lo: int,
    hi: int,
    a: Seq<usize>,
    b: Seq<usize>,
)
    requires
        sorts(keys, lo, hi, a),
        sorts(keys, lo, hi, b),
        0 <= lo <= hi <= usize::MAX,
    ensures
        a == b,
{
    assert forall|n: int| 0 <= n <= a.len() implies #[trigger] a.take(n) == b.take(n) by {
        lemma_same_prefix(keys, lo, hi, a, b, n);
    }
    assert(a.take(a.len() as int) =~= a);
    assert(b.take(a.len() as int) =~= b);
}

proof fn lemma_same_prefix(
    keys: Seq<(u8, Seq<char>)>,
    lo: int,
    hi: int,
    a: Seq<usize>,
    b: Seq<usize>,
    n: int,
)
    requires
        sorts(keys, lo, hi, a),
        sorts(keys, lo, hi, b),
        0 <= lo <= hi <= usize::MAX,
        0 <= n <= a.len(),
    ensures
        a.take(n) == b.take(n),
    decreases n,
{
    if n > 0 {
        lemma_same_prefix(keys, lo, hi, a, b, n - 1);
        let x = a[n - 1];
        let y = b[n - 1];
        if x != y {
            assert(b.contains(x as int as usize));
            assert(a.contains(y as int as usize));
            let q = choose|q: int| 0 <= q < b.len() && b[q] == x;
            let p = choose|p: int| 0 <= p < a.len() && a[p] == y;
            law_item_order(keys, x as int, y as int, x as int);
            if q < n - 1 {
                assert(a.take(n - 1)[q] == b.take(n - 1)[q]);
                assert(item_before(keys, a[q] as int, a[n - 1] as int));
            } else if p < n - 1 {
                assert(a.take(n - 1)[p] == b.take(n - 1)[p]);
                law_item_order(keys, y as int, y as int, y as int);
                assert(item_before(keys, b[p] as int, b[n - 1] as int));
            } else {
                assert(item_before(keys, b[n - 1] as int, b[q] as int));
                assert(item_before(keys, a[n - 1] as int, a[p] as int));
            }
        }
        assert(a.take(n) =~= a.take(n - 1).push(x));
        assert(b.take(n) =~= b.take(n - 1).push(y));
    } else {
        assert(a.take(n) =~= b.take(n));
    }
}

/// Compares two texts: whether the first comes before the second, and whether they are equal.
fn compare_texts(a: &Vec<char>, b: &Vec<char>) -> (r: (bool, bool))
    ensures
        r.0 == text_before(a@, b@),
        r.1 == (a@ == b@),
{
    let mut i: usize = 0;
    assert(a@.skip(0) =~= a@);
    assert(b@.skip(0) =~= b@);
    while i < a.len() && i < b.len() && a[i] == b[i]
        invariant
            i <= a.len(),
            i <= b.len(),
            a@.take(i as int) == b@.take(i as int),
            text_before(a@, b@) == text_before(a@.skip(i as int), b@.skip(i as int)),
        decreases a.len() - i,
    {
        assert(a@.skip(i as int).skip(1) =~= a@.skip(i + 1));
        assert(b@.skip(i as int).skip(1) =~= b@.skip(i + 1));
        assert(a@.take(i + 1) =~= a@.take(i as int).push(a@[i as int]));
        assert(b@.take(i + 1) =~= b@.take(i as int).push(b@[i as int]));
        i = i + 1;
    }
    if i >= b.len() {
        if i >= a.len() {
            assert(a@.take(i as int) =~= a@);
            assert(b@.take(i as int) =~= b@);
            (false, true)
        } else {
            (false, false)
        }
    } else if i >= a.len() {
        (true, false)
    } else {
        assert(a@[i as int] != b@[i as int]);
        (a[i] < b[i], false)
    }
}

/// Whether item `i` comes before item `j`.
fn precedes(keys: &Vec<SortKey>, i: usize, j: usize) -> (r: bool)
    requires
        i < keys.len(),
        j < keys.len(),
    ensures
        r == item_before(keys_view(keys@), i as int, j as int),
{
    let a = &keys[i];
    let b = &keys[j];
    assert(keys_view(keys@)[i as int] == a@);
    assert(keys_view(keys@)[j as int] == b@);
    if a.rank != b.rank {
        return a.rank < b.rank;
    }
    let (less, same) = compare_texts(&a.text, &b.text);
    less || (same && i < j)
}

/// Merges two sorted runs that lie one behind the other.
fn merge(keys: &Vec<SortKey>, lo: Ghost<int>, mid: Ghost<int>, hi: Ghost<int>, left: Vec<usize>, right: Vec<usize>) -> (out: Vec<usize>)
    requires
        0 <= lo@ <= mid@ <= hi@ <= keys.len(),
        sorts(keys_view(keys@), lo@, mid@, left@),
        sorts(keys_view(keys@), mid@, hi@, right@),
    ensures
        sorts(keys_view(keys@), lo@, hi@, out@),
{
    let ghost kv = keys_view(keys@);
    let ghost lo = lo@;
    let ghost mid = mid@;
    let ghost hi = hi@;
    let mut out: Vec<usize> = Vec::new();
    let mut i: usize = 0;
    let mut j: usize = 0;
    while i < left.len() || j < right.len()
        invariant
            kv == keys_view(keys@),
            0 <= lo <= mid <= hi <= keys.len(),
            sorts(kv, lo, mid, left@),
            sorts(kv, mid, hi, right@),
            i <= left.len(),
            j <= right.len(),
            out.len() == i + j,
            forall|p: int| 0 <= p < out.len() ==> lo <= #[trigger] out@[p] < hi,
            forall|p: int, q: int|
                0 <= p < q < out.len() ==> item_before(
                    kv,
                    #[trigger] out@[p] as int,
                    #[trigger] out@[q] as int,
                ),
            forall|p: int, a: int|
                0 <= p < out.len() && i <= a < left.len() ==> item_before(
                    kv,
                    #[trigger] out@[p] as int,
                    #[trigger] left@[a] as int,
                ),
            forall|p: int, b: int|
                0 <= p < out.len() && j <= b < right.len() ==> item_before(
                    kv,
                    #[trigger] out@[p] as int,
                    #[trigger] right@[b] as int,
                ),
            forall|a: int| 0 <= a < i ==> out@.contains(#[trigger] left@[a]),
            forall|b: int| 0 <= b < j ==> out@.contains(#[trigger] right@[b]),
        decreases left.len() - i + right.len() - j,
    {
        let ghost before = out@;
        let take_left = j >= right.len() || (i < left.len() && precedes(keys, left[i], right[j]));
        let x: usize = if take_left { left[i] } else { right[j] };
        proof {
            assert forall|a: int| i <= a < left.len() && (!take_left || a > i) implies item_before(
                kv,
                x as int,
                #[trigger] left@[a] as int,
            ) by {
                if !take_left {
                    let l = left@[i as int] as int;
                    law_item_order(kv, l, x as int, l);
                    law_item_order(kv, x as int, l, left@[a] as int);
                }
            }
            assert forall|b: int| j <= b < right.len() && (take_left || b > j) implies item_before(
                kv,
                x as int,
                #[trigger] right@[b] as int,
            ) by {
                if take_left {
                    law_item_order(kv, x as int, right@[j as int] as int, right@[b] as int);
                }
            }
        }
        out.push(x);
        proof {
            assert forall|v: usize| before.contains(v) implies #[trigger] out@.contains(v) by {
                let p = choose|p: int| 0 <= p < before.len() && before[p] == v;
                assert(out@[p] == v);
            }
            assert(out@[out@.len() - 1] == x);
            assert(out@.contains(x));
        }
        if take_left {
            i = i + 1;
        } else {
            j = j + 1;
        }
    }
    proof {
        assert forall|k: int| lo <= k < hi implies #[trigger] out@.contains(k as usize) by {
            if k < mid {
                assert(left@.contains(k as usize));
                let a = choose|a: int| 0 <= a < left@.len() && left@[a] == k as usize;
                assert(out@.contains(left@[a]));
            } else {
                assert(right@.contains(k as usize));
                let b = choose|b: int| 0 <= b < right@.len() && right@[b] == k as usize;
                assert(out@.contains(right@[b]));
            }
        }
    }
    out
}

/// Sorts the items from `lo` up to `hi`.
fn sort_range(keys: &Vec<SortKey>, lo: usize, hi: usize) -> (out: Vec<usize>)
    requires
        lo <= hi <= keys.len(),
    ensures
        sorts(keys_view(keys@), lo as int, hi as int, out@),
    decreases hi - lo,
{
    if hi - lo <= 1 {
        let mut out: Vec<usize> = Vec::new();
        if lo < hi {
            out.push(lo);
            assert(out@[0] == lo);
        }
        return out;
    }
    let mid: usize = lo + (hi - lo) / 2;
    let left = sort_range(keys, lo, mid);
    let right = sort_range(keys, mid, hi);
    merge(keys, Ghost(lo as int), Ghost(mid as int), Ghost(hi as int), left, right)
}

/// The positions of the items in the order of their keys; equal keys keep their order.
pub fn sorted_order(keys: &Vec<SortKey>) -> (out: Vec<usize>)
    ensures
        sorts(keys_view(keys@), 0, keys@.len() as int, out@),
{
    sort_range(keys, 0, keys.len())
}

/// The order of texts: the first difference decides, and a text comes before its
/// continuations.
pub proof fn law_first_difference_decides(
    p: Seq<char>,
    c: char,
    d: char,
    x: Seq<char>,
    y: Seq<char>,
)
    requires
        c < d,
    ensures
        text_before(p + seq![c] + x, p + seq![d] + y),
        !text_before(p + seq![d] + y, p + seq![c] + x),
        text_before(p, p + seq![c] + x),
        !text_before(p + seq![c] + x, p),
        !text_before(p, p),
    decreases p.len(),
{
    let a = p + seq![c] + x;
    let b = p + seq![d] + y;
    if p.len() > 0 {
        let q = p.skip(1);
        law_first_difference_decides(q, c, d, x, y);
        assert(a.skip(1) =~= q + seq![c] + x);
        assert(b.skip(1) =~= q + seq![d] + y);
    }
}

} // verus!
