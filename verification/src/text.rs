//! Text: decimal numbers, searching, splitting, trimming and joining, each with
//! its meaning as a function on sequences of characters.
use vstd::prelude::*;
use vstd::utf8::*;

verus! {

// ---------------------------------------------------------------- searching
/// Position of the first occurrence of `c` in `s`; the length of `s` if there is none.
pub open spec fn find<T>(s: Seq<T>, c: T) -> nat
    decreases s.len(),
{
    if s.len() == 0 || s[0] == c {
        0
    } else {
        1 + find(s.skip(1), c)
    }
}

/// Nothing before position `find(s, c)` equals `c`, and what stands there does.
pub proof fn lemma_find<T>(s: Seq<T>, c: T)
    ensures
        find(s, c) <= s.len(),
        forall|j: int| 0 <= j < find(s, c) ==> s[j] != c,
        find(s, c) < s.len() ==> s[find(s, c) as int] == c,
    decreases s.len(),
{
    if s.len() == 0 || s[0] == c {
    } else {
        lemma_find(s.skip(1), c);
        assert forall|j: int| 0 <= j < find(s, c) implies s[j] != c by {
            if j > 0 {
                assert(s[j] == s.skip(1)[j - 1]);
            }
        }
    }
}

/// The position found is the only one with the properties of `lemma_find`.
pub proof fn lemma_find_is<T>(s: Seq<T>, c: T, i: int)
    requires
        0 <= i <= s.len(),
        forall|j: int| 0 <= j < i ==> s[j] != c,
        i < s.len() ==> s[i] == c,
    ensures
        find(s, c) == i,
{
    lemma_find(s, c);
    let k = find(s, c) as int;
    if k < i {
        assert(s[k] != c);
    } else if i < k {
        assert(s[i] != c);
    }
}

/// Whether `t` occurs in `s` as a contiguous run.
pub open spec fn occurs(s: Seq<char>, t: Seq<char>) -> bool {
    exists|i: int| 0 <= i && i + t.len() <= s.len() && #[trigger] s.subrange(i, i + t.len()) == t
}

/// Whether `s` begins with `t`.
pub open spec fn begins<T>(s: Seq<T>, t: Seq<T>) -> bool {
    t.len() <= s.len() && s.take(t.len() as int) == t
}

// ---------------------------------------------------------------- numbers
/// The decimal digit `d`.
pub open spec fn digit(d: int) -> char {
    (('0' as u32 + d) as u32) as char
}

/// Decimal notation of `n`, without leading zeros.
pub open spec fn dec(n: nat) -> Seq<char>
    decreases n,
{
    if n < 10 {
        seq![digit(n as int)]
    } else {
        dec(n / 10).push(digit((n % 10) as int))
    }
}

/// Whether `c` is one of `0` to `9`.
pub open spec fn is_digit(c: char) -> bool {
    '0' <= c <= '9'
}

/// The number that a run of decimal digits denotes.
pub open spec fn digits_value(s: Seq<char>) -> nat
    decreases s.len(),
{
    if s.len() == 0 {
        0
    } else {
        digits_value(s.drop_last()) * 10 + (s.last() as u32 - '0' as u32) as nat
    }
}

/// What is left of a number's text after an optional plus sign.
pub open spec fn unsigned_part(s: Seq<char>) -> Seq<char> {
    if s.len() > 0 && s[0] == '+' {
        s.skip(1)
    } else {
        s
    }
}

/// A number: an optional plus sign, then digits only and at least one, at most `max`.
pub open spec fn number(s: Seq<char>, max: nat) -> Option<nat> {
    let d = unsigned_part(s);
    if d.len() > 0 && (forall|i: int| 0 <= i < d.len() ==> is_digit(#[trigger] d[i])) && digits_value(d)
        <= max {
        Some(digits_value(d))
    } else {
        None
    }
}

proof fn lemma_digit(d: int)
    requires
        0 <= d < 10,
    ensures
        is_digit(digit(d)),
        digit(d) as u32 == '0' as u32 + d,
        digit(d) != '+',
{
}

/// Every decimal notation consists of digits and denotes the number it was made of.
pub proof fn lemma_dec(n: nat)
    ensures
        dec(n).len() > 0,
        forall|i: int| 0 <= i < dec(n).len() ==> is_digit(#[trigger] dec(n)[i]),
        digits_value(dec(n)) == n,
    decreases n,
{
    if n < 10 {
        lemma_digit(n as int);
        assert(dec(n).drop_last() =~= Seq::<char>::empty());
        assert(digits_value(dec(n).drop_last()) == 0);
    } else {
        lemma_dec(n / 10);
        lemma_digit((n % 10) as int);
        assert(dec(n).drop_last() =~= dec(n / 10));
    }
}

/// Reading back the decimal notation of a number gives the number, where it is not too large.
pub proof fn law_number_of_dec(n: nat, max: nat)
    requires
        n <= max,
    ensures
        number(dec(n), max) == Some(n),
{
    lemma_dec(n);
    assert(is_digit(dec(n)[0]));
}

proof fn lemma_digits_grow(s: Seq<char>, i: int)
    requires
        0 <= i <= s.len(),
    ensures
        digits_value(s.take(i)) <= digits_value(s),
    decreases s.len() - i,
{
    if i < s.len() {
        lemma_digits_grow(s, i + 1);
        assert(s.take(i + 1).drop_last() =~= s.take(i));
    } else {
        assert(s.take(i) =~= s);
    }
}

/// Appends the decimal notation of `n` to `s`.
pub fn push_dec(s: &mut String, n: u64)
    ensures
        final(s)@ == old(s)@ + dec(n as nat),
    decreases n,
{
    if n >= 10 {
        push_dec(s, n / 10);
    }
    let d: u8 = (n % 10) as u8;
    let c: char = (48 + d) as char;
    assert(c == digit((n % 10) as int));
    s.push(c);
    assert(s@ =~= old(s)@ + dec(n as nat));
}

/// Decimal notation of `n`.
pub fn dec_text(n: u64) -> (r: String)
    ensures
        r@ == dec(n as nat),
{
    let mut s = String::new();
    push_dec(&mut s, n);
    assert(Seq::<char>::empty() + dec(n as nat) =~= dec(n as nat));
    s
}

/// Reads a number of at most `max`.
pub fn parse_number(s: &[char], max: u64) -> (r: Option<u64>)
    ensures
        match r {
            Some(n) => number(s@, max as nat) == Some(n as nat),
            None => number(s@, max as nat) is None,
        },
{
    let start: usize = if s.len() > 0 && s[0] == '+' { 1 } else { 0 };
    let ghost d = unsigned_part(s@);
    assert(d =~= s@.skip(start as int));
    if start == s.len() {
        return None;
    }
    let mut i: usize = start;
    let mut v: u64 = 0;
    while i < s.len()
        invariant
            start <= i <= s.len(),
            d == s@.skip(start as int),
            d == unsigned_part(s@),
            forall|j: int| 0 <= j < i - start ==> is_digit(#[trigger] d[j]),
            v == digits_value(d.take(i - start)),
            v <= max,
        decreases s.len() - i,
    {
        let c: char = s[i];
        assert(d[i - start] == c);
        if !('0' <= c && c <= '9') {
            assert(!is_digit(d[i - start]));
            return None;
        }
        let x: u64 = c as u64 - 48;
        proof {
            assert(d.take(i - start + 1).drop_last() =~= d.take(i - start));
            lemma_digits_grow(d, i - start + 1);
        }
        if v > (u64::MAX - x) / 10 || v * 10 + x > max {
            return None;
        }
        v = v * 10 + x;
        i = i + 1;
    }
    assert(d.take(i - start) =~= d);
    Some(v)
}

// ---------------------------------------------------------------- white space
/// Whether `c` has the Unicode property `White_Space`.
pub open spec fn is_white(c: char) -> bool {
    ||| '\u{9}' <= c <= '\u{d}'
    ||| c == ' '
    ||| c == '\u{85}'
    ||| c == '\u{a0}'
    ||| c == '\u{1680}'
    ||| '\u{2000}' <= c <= '\u{200a}'
    ||| c == '\u{2028}'
    ||| c == '\u{2029}'
    ||| c == '\u{202f}'
    ||| c == '\u{205f}'
    ||| c == '\u{3000}'
}

/// `s` without white space at its start.
pub open spec fn trim_start(s: Seq<char>) -> Seq<char>
    decreases s.len(),
{
    if s.len() > 0 && is_white(s[0]) {
        trim_start(s.skip(1))
    } else {
        s
    }
}

/// `s` without white space at its end.
pub open spec fn trim_end(s: Seq<char>) -> Seq<char>
    decreases s.len(),
{
    if s.len() > 0 && is_white(s.last()) {
        trim_end(s.drop_last())
    } else {
        s
    }
}

/// `s` without white space at its start and end.
pub open spec fn trimmed(s: Seq<char>) -> Seq<char> {
    trim_end(trim_start(s))
}

/// A text that neither starts nor ends with white space is its own trimmed form.
pub proof fn lemma_trimmed_fixed(s: Seq<char>)
    requires
        s.len() > 0 ==> !is_white(s[0]) && !is_white(s.last()),
    ensures
        trimmed(s) == s,
{
}

/// Whether `c` is white space.
pub fn white(c: char) -> (r: bool)
    ensures
        r == is_white(c),
{
    ('\u{9}' <= c && c <= '\u{d}') || c == ' ' || c == '\u{85}' || c == '\u{a0}' || c
        == '\u{1680}' || ('\u{2000}' <= c && c <= '\u{200a}') || c == '\u{2028}' || c
        == '\u{2029}' || c == '\u{202f}' || c == '\u{205f}' || c == '\u{3000}'
}

// ---------------------------------------------------------------- conversions
/// The characters of a text.
pub fn chars_of(s: &str) -> (r: Vec<char>)
    ensures
        r@ == s@,
{
    let mut v: Vec<char> = Vec::new();
    for c in it: s.chars()
        invariant
            v@ == it.seq().take(it.index() as int),
            it.seq() == s@,
    {
        v.push(c);
        assert(it.seq().take(it.index() as int + 1) =~= it.seq().take(it.index() as int).push(c));
    }
    assert(s@.take(s@.len() as int) =~= s@);
    v
}

/// The text made of the characters from `from` up to `to`.
pub fn text_range(v: &[char], from: usize, to: usize) -> (r: String)
    requires
        from <= to <= v.len(),
    ensures
        r@ == v@.subrange(from as int, to as int),
{
    let mut s = String::new();
    let mut i: usize = from;
    while i < to
        invariant
            from <= i <= to <= v.len(),
            s@ == v@.subrange(from as int, i as int),
        decreases to - i,
    {
        s.push(v[i]);
        i = i + 1;
        assert(v@.subrange(from as int, i as int) =~= v@.subrange(from as int, i - 1).push(
            v@[i - 1],
        ));
    }
    s
}

/// The characters from `from` up to `to`.
pub fn chars_range(v: &[char], from: usize, to: usize) -> (r: Vec<char>)
    requires
        from <= to <= v.len(),
    ensures
        r@ == v@.subrange(from as int, to as int),
{
    vstd::slice::slice_to_vec(vstd::slice::slice_subrange(v, from, to))
}

/// Whether two runs of bytes are the same.
pub fn same_bytes(a: &[u8], b: &[u8]) -> (r: bool)
    ensures
        r == (a@ == b@),
{
    if a.len() != b.len() {
        return false;
    }
    let mut i: usize = 0;
    while i < a.len()
        invariant
            i <= a.len(),
            a.len() == b.len(),
            forall|j: int| 0 <= j < i ==> a@[j] == b@[j],
        decreases a.len() - i,
    {
        if a[i] != b[i] {
            assert(a@[i as int] != b@[i as int]);
            return false;
        }
        i = i + 1;
    }
    assert(a@ =~= b@);
    true
}

/// Whether two texts are the same.
pub fn same_text(a: &str, b: &str) -> (r: bool)
    ensures
        r == (a@ == b@),
{
    proof {
        encode_utf8_decode_utf8(a@);
        encode_utf8_decode_utf8(b@);
    }
    same_bytes(a.as_bytes(), b.as_bytes())
}

/// Appends bytes.
pub fn push_bytes(v: &mut Vec<u8>, b: &[u8])
    ensures
        final(v)@ == old(v)@ + b@,
{
    v.extend_from_slice(b);
    assert(v@ =~= old(v)@ + b@);
}

/// Position of the first byte `c`; the length if there is none.
pub fn find_byte(s: &[u8], c: u8) -> (r: usize)
    ensures
        r == find(s@, c),
        r <= s.len(),
{
    let mut i: usize = 0;
    while i < s.len() && s[i] != c
        invariant
            i <= s.len(),
            forall|j: int| 0 <= j < i ==> s@[j] != c,
        decreases s.len() - i,
    {
        i = i + 1;
    }
    proof {
        lemma_find_is(s@, c, i as int);
    }
    i
}

/// Position of the first character `c`; the length if there is none.
pub fn find_char(s: &[char], c: char) -> (r: usize)
    ensures
        r == find(s@, c),
        r <= s.len(),
{
    let mut i: usize = 0;
    while i < s.len() && s[i] != c
        invariant
            i <= s.len(),
            forall|j: int| 0 <= j < i ==> s@[j] != c,
        decreases s.len() - i,
    {
        i = i + 1;
    }
    proof {
        lemma_find_is(s@, c, i as int);
    }
    i
}

/// Whether the bytes begin with `t`.
pub fn bytes_begin(s: &[u8], t: &[u8]) -> (r: bool)
    ensures
        r == begins(s@, t@),
{
    if s.len() < t.len() {
        return false;
    }
    assert(s@.subrange(0, t@.len() as int) =~= s@.take(t@.len() as int));
    same_bytes(vstd::slice::slice_subrange(s, 0, t.len()), t)
}

/// Whether the characters from `at` on begin with `t`.
fn run_at(s: &[char], at: usize, t: &[char]) -> (r: bool)
    requires
        at + t.len() <= s.len(),
    ensures
        r == (s@.subrange(at as int, at + t.len()) == t@),
{
    let mut i: usize = 0;
    while i < t.len()
        invariant
            i <= t.len(),
            at + t.len() <= s.len(),
            forall|j: int| 0 <= j < i ==> s@[at + j] == t@[j],
        decreases t.len() - i,
    {
        if s[at + i] != t[i] {
            assert(s@.subrange(at as int, at + t.len())[i as int] != t@[i as int]);
            return false;
        }
        i = i + 1;
    }
    assert(s@.subrange(at as int, at + t.len()) =~= t@);
    true
}

/// Whether the text begins with `t`.
pub fn text_begins(s: &str, t: &str) -> (r: bool)
    ensures
        r == begins(s@, t@),
{
    let a = chars_of(s);
    let b = chars_of(t);
    if a.len() < b.len() {
        return false;
    }
    assert(s@.subrange(0, t@.len() as int) =~= s@.take(t@.len() as int));
    run_at(&a, 0, &b)
}

/// Whether `t` occurs in `s`.
pub fn text_occurs(s: &str, t: &str) -> (r: bool)
    ensures
        r == occurs(s@, t@),
{
    let a = chars_of(s);
    let b = chars_of(t);
    if a.len() < b.len() {
        return false;
    }
    let last: usize = a.len() - b.len();
    let mut i: usize = 0;
    while i <= last
        invariant
            a@ == s@,
            b@ == t@,
            last + b.len() == a.len(),
            i <= last + 1,
            forall|j: int| 0 <= j < i ==> #[trigger] s@.subrange(j, j + t@.len()) != t@,
        decreases last + 1 - i,
    {
        if run_at(&a, i, &b) {
            return true;
        }
        if i == last {
            return false;
        }
        i = i + 1;
    }
    false
}

/// The text without white space at its start and end.
pub fn trim_text(s: &str) -> (r: String)
    ensures
        r@ == trimmed(s@),
{
    let v = chars_of(s);
    let mut a: usize = 0;
    assert(s@.skip(0) =~= s@);
    while a < v.len() && white(v[a])
        invariant
            a <= v.len(),
            v@ == s@,
            trim_start(s@) == trim_start(s@.skip(a as int)),
        decreases v.len() - a,
    {
        assert(s@.skip(a as int).skip(1) =~= s@.skip(a + 1));
        a = a + 1;
    }
    let mut b: usize = v.len();
    assert(s@.skip(a as int) =~= s@.subrange(a as int, b as int));
    while b > a && white(v[b - 1])
        invariant
            a <= b <= v.len(),
            v@ == s@,
            trimmed(s@) == trim_end(s@.subrange(a as int, b as int)),
        decreases b,
    {
        assert(s@.subrange(a as int, b as int).drop_last() =~= s@.subrange(a as int, b - 1));
        b = b - 1;
    }
    text_range(&v, a, b)
}

// ---------------------------------------------------------------- beginnings
/// The first `n` bytes of a text, where a character ends there; else the whole text.
pub open spec fn head(s: Seq<char>, n: int) -> Seq<char> {
    if is_char_boundary(encode_utf8(s), n) {
        decode_utf8(encode_utf8(s).take(n))
    } else {
        s
    }
}

/// The first `n` bytes of a text, where a character ends there; else the whole text.
pub fn head_text(s: &str, n: usize) -> (r: String)
    ensures
        r@ == head(s@, n as int),
{
    if s.is_char_boundary(n) {
        let (a, _) = s.split_at(n);
        proof {
            encode_utf8_decode_utf8(a@);
            assert(encode_utf8(a@) =~= encode_utf8(s@).take(n as int));
        }
        a.to_owned()
    } else {
        s.to_owned()
    }
}

// ---------------------------------------------------------------- lines
/// A line without the carriage return at its end, where it has one.
pub open spec fn without_cr(s: Seq<char>) -> Seq<char> {
    if s.len() > 0 && s.last() == '\r' {
        s.drop_last()
    } else {
        s
    }
}

/// The lines of a text. Each ends with a line feed, before which a carriage return
/// is dropped too; the last may lack its line feed and is then left as it is.
pub open spec fn lines(s: Seq<char>) -> Seq<Seq<char>>
    decreases s.len(),
{
    let i = find(s, '\n');
    if s.len() == 0 {
        Seq::empty()
    } else if i >= s.len() {
        seq![s]
    } else {
        seq![without_cr(s.take(i as int))] + lines(s.skip(i as int + 1))
    }
}

/// The sequences of characters that a list of strings holds.
pub open spec fn texts(v: Seq<String>) -> Seq<Seq<char>> {
    v.map_values(|s: String| s@)
}

/// The first line of a text, and the rest.
pub proof fn lemma_first_line(a: Seq<char>, rest: Seq<char>)
    requires
        !a.contains('\n'),
        !a.contains('\r'),
    ensures
        lines(a + seq!['\n'] + rest) == seq![a] + lines(rest),
{
    let t = a + seq!['\n'] + rest;
    assert forall|j: int| 0 <= j < a.len() implies t[j] != '\n' by {
        assert(a.contains(a[j]));
    }
    lemma_find_is(t, '\n', a.len() as int);
    assert(t.take(a.len() as int) =~= a);
    assert(t.skip(a.len() as int + 1) =~= rest);
    if a.len() > 0 {
        assert(a.contains(a.last()));
    }
}

/// Appends a text to a list.
pub fn push_text(v: &mut Vec<String>, s: String)
    ensures
        texts(final(v)@) == texts(old(v)@).push(s@),
        texts(final(v)@) == texts(old(v)@) + seq![s@],
{
    v.push(s);
    assert(texts(v@) =~= texts(old(v)@).push(s@));
    assert(texts(v@) =~= texts(old(v)@) + seq![s@]);
}

/// Splits a text into lines.
pub fn split_lines(s: &str) -> (r: Vec<String>)
    ensures
        texts(r@) == lines(s@),
{
    let v = chars_of(s);
    let mut out: Vec<String> = Vec::new();
    let mut a: usize = 0;
    assert(s@.skip(0) =~= s@);
    assert(texts(out@) + lines(s@) =~= lines(s@));
    while a < v.len()
        invariant
            a <= v.len(),
            v@ == s@,
            texts(out@) + lines(s@.skip(a as int)) == lines(s@),
        decreases v.len() - a,
    {
        let ghost rest = s@.skip(a as int);
        assert(v@.subrange(a as int, v@.len() as int) =~= rest);
        let n: usize = find_char(vstd::slice::slice_subrange(&v, a, v.len()), '\n');
        let ghost before = out@;
        if n == v.len() - a {
            let line = text_range(&v, a, v.len());
            out.push(line);
            assert(texts(out@) =~= texts(before) + seq![rest]);
            return out;
        }
        let end: usize = a + n;
        let cut: usize = if n > 0 && v[end - 1] == '\r' { end - 1 } else { end };
        let line = text_range(&v, a, cut);
        proof {
            assert(rest.take(n as int) =~= s@.subrange(a as int, end as int));
            assert(line@ =~= without_cr(rest.take(n as int)));
            assert(rest.skip(n + 1) =~= s@.skip(end + 1));
        }
        out.push(line);
        a = end + 1;
        assert(texts(out@) + lines(s@.skip(a as int)) =~= texts(before) + (seq![line@] + lines(
            s@.skip(a as int),
        )));
    }
    assert(s@.skip(a as int) =~= Seq::<char>::empty());
    assert(texts(out@) + lines(s@.skip(a as int)) =~= texts(out@));
    out
}

// ---------------------------------------------------------------- joining
/// The texts one after another with `sep` between them.
pub open spec fn joined(v: Seq<Seq<char>>, sep: Seq<char>) -> Seq<char>
    decreases v.len(),
{
    if v.len() == 0 {
        Seq::empty()
    } else if v.len() == 1 {
        v[0]
    } else {
        joined(v.drop_last(), sep) + sep + v.last()
    }
}

/// Joins the texts from position `from` on.
pub fn join_from(v: &Vec<String>, from: usize, sep: &str) -> (r: String)
    requires
        from <= v.len(),
    ensures
        r@ == joined(texts(v@).skip(from as int), sep@),
{
    let mut out = String::new();
    let mut i: usize = from;
    while i < v.len()
        invariant
            from <= i <= v.len(),
            out@ == joined(texts(v@).subrange(from as int, i as int), sep@),
        decreases v.len() - i,
    {
        let ghost now = texts(v@).subrange(from as int, i + 1);
        assert(now.drop_last() =~= texts(v@).subrange(from as int, i as int));
        assert(now.last() == v@[i as int]@);
        if i == from {
            assert(out@ + v@[i as int]@ =~= v@[i as int]@);
        } else {
            out.append(sep);
        }
        out.append(v[i].as_str());
        i = i + 1;
    }
    assert(texts(v@).subrange(from as int, i as int) =~= texts(v@).skip(from as int));
    out
}

/// Joins all the texts.
pub fn join(v: &Vec<String>, sep: &str) -> (r: String)
    ensures
        r@ == joined(texts(v@), sep@),
{
    assert(texts(v@).skip(0) =~= texts(v@));
    join_from(v, 0, sep)
}

// ---------------------------------------------------------------- what these functions mean
/// The place that is found is the first one, and there is none if the search ends at the end.
pub proof fn law_first_place_is_found<T>(before: Seq<T>, c: T, after: Seq<T>)
    requires
        !before.contains(c),
    ensures
        find(before + seq![c] + after, c) == before.len(),
        find(before, c) == before.len(),
{
    let s = before + seq![c] + after;
    assert forall|j: int| 0 <= j < before.len() implies s[j] != c && before[j] != c by {
        assert(before.contains(before[j]));
        assert(s[j] == before[j]);
    }
    lemma_find_is(s, c, before.len() as int);
    lemma_find_is(before, c, before.len() as int);
}

/// A text begins with another, and holds another, if and only if it is made of it and more.
pub proof fn law_parts_of_a_text(a: Seq<char>, t: Seq<char>, b: Seq<char>, s: Seq<char>)
    ensures
        begins(t + b, t),
        begins(s, t) ==> exists|u: Seq<char>| s == t + u,
        occurs(a + t + b, t),
        occurs(s, t) ==> exists|u: Seq<char>, v: Seq<char>| s == u + t + v,
{
    assert((t + b).take(t.len() as int) =~= t);
    if begins(s, t) {
        assert(s =~= t + s.skip(t.len() as int));
    }
    assert((a + t + b).subrange(a.len() as int, (a.len() + t.len()) as int) =~= t);
    if occurs(s, t) {
        let i = choose|i: int|
            0 <= i && i + t.len() <= s.len() && #[trigger] s.subrange(i, i + t.len()) == t;
        assert(s =~= s.take(i) + t + s.skip(i + t.len()));
    }
}

/// Decimal notation: the figures 0 to 9 stand for the numbers 0 to 9, and one more figure
/// behind a number that is not zero makes ten times that number and the figure.
pub proof fn law_decimal_notation(n: nat, d: nat)
    requires
        d < 10,
    ensures
        dec(d).len() == 1,
        dec(d)[0] as u32 == 48 + d,
        n > 0 ==> dec(n * 10 + d) == dec(n) + dec(d),
{
    lemma_digit(d as int);
    let m = n * 10 + d;
    if n > 0 {
        assert(m / 10 == n && m % 10 == d);
        assert(dec(n) + dec(d) =~= dec(m));
    }
}

/// Which texts are numbers: figures, perhaps behind a plus sign, whose value is not too
/// large. A zero in front changes nothing.
pub proof fn law_numbers_are_read(n: nat, max: nat, s: Seq<char>, i: int)
    ensures
        number(dec(n), max) == (if n <= max {
            Some(n)
        } else {
            None
        }),
        number(seq!['+'] + dec(n), max) == number(dec(n), max),
        number(seq!['0'] + dec(n), max) == number(dec(n), max),
        number(Seq::empty(), max) is None,
        number(seq!['+'], max) is None,
        0 <= i < s.len() && !(48 <= s[i] as u32 <= 57) && !(i == 0 && s[0] == '+') ==> number(
            s,
            max,
        ) is None,
{
    lemma_dec(n);
    assert(unsigned_part(dec(n)) == dec(n)) by {
        assert(is_digit(dec(n)[0]));
    }
    let p = seq!['+'] + dec(n);
    assert(p.skip(1) =~= dec(n));
    let z = seq!['0'] + dec(n);
    lemma_zero_in_front(dec(n));
    assert forall|k: int| 0 <= k < z.len() implies is_digit(#[trigger] z[k]) by {
        if k > 0 {
            assert(z[k] == dec(n)[k - 1]);
        }
    }
    assert(seq!['+'].skip(1) =~= Seq::<char>::empty());
    if 0 <= i < s.len() && !(48 <= s[i] as u32 <= 57) && !(i == 0 && s[0] == '+') {
        let d = unsigned_part(s);
        if s[0] == '+' {
            assert(d[i - 1] == s[i]);
            assert(!is_digit(d[i - 1]));
        } else {
            assert(!is_digit(d[i]));
        }
    }
}

proof fn lemma_zero_in_front(s: Seq<char>)
    ensures
        digits_value(seq!['0'] + s) == digits_value(s),
    decreases s.len(),
{
    let z = seq!['0'] + s;
    if s.len() == 0 {
        assert(z.drop_last() =~= Seq::<char>::empty());
        assert(digits_value(z.drop_last()) == 0);
    } else {
        lemma_zero_in_front(s.drop_last());
        assert(z.drop_last() =~= seq!['0'] + s.drop_last());
    }
}

/// Whether these characters are all white space.
pub open spec fn all_white(s: Seq<char>) -> bool {
    forall|i: int| 0 <= i < s.len() ==> is_white(#[trigger] s[i])
}

/// Trimming takes white space away at both ends, all of it and nothing else. In ASCII,
/// white space is the blank and the characters from the tabulator to the carriage return.
pub proof fn law_trimming(s: Seq<char>, c: char)
    ensures
        exists|a: Seq<char>, b: Seq<char>|
            all_white(a) && all_white(b) && s == #[trigger] (a + trimmed(s) + b),
        trimmed(s).len() > 0 ==> !is_white(trimmed(s)[0]) && !is_white(trimmed(s).last()),
        c as u32 <= 0x7f ==> (is_white(c) <==> c as u32 == 32 || 9 <= c as u32 <= 13),
{
    lemma_trim_start(s);
    let t = trim_start(s);
    lemma_trim_end(t);
    let a = s.take(s.len() - t.len());
    let b = t.skip(trim_end(t).len() as int);
    assert(s =~= a + trimmed(s) + b);
    if trimmed(s).len() > 0 {
        assert(trimmed(s)[0] == t[0]);
    }
}

proof fn lemma_trim_start(s: Seq<char>)
    ensures
        trim_start(s).len() <= s.len(),
        trim_start(s) == s.skip(s.len() - trim_start(s).len()),
        all_white(s.take(s.len() - trim_start(s).len())),
        trim_start(s).len() > 0 ==> !is_white(trim_start(s)[0]),
    decreases s.len(),
{
    if s.len() > 0 && is_white(s[0]) {
        let t = s.skip(1);
        lemma_trim_start(t);
        let n = s.len() - trim_start(s).len();
        assert(t.skip(n - 1) =~= s.skip(n));
        assert forall|i: int| 0 <= i < n implies is_white(#[trigger] s.take(n)[i]) by {
            if i > 0 {
                assert(s.take(n)[i] == t.take(n - 1)[i - 1]);
            }
        }
    } else {
        assert(s.skip(0) =~= s);
    }
}

proof fn lemma_trim_end(s: Seq<char>)
    ensures
        trim_end(s).len() <= s.len(),
        trim_end(s) == s.take(trim_end(s).len() as int),
        all_white(s.skip(trim_end(s).len() as int)),
        trim_end(s).len() > 0 ==> !is_white(trim_end(s).last()),
    decreases s.len(),
{
    if s.len() > 0 && is_white(s.last()) {
        let t = s.drop_last();
        lemma_trim_end(t);
        let n = trim_end(s).len() as int;
        assert(t.take(n) =~= s.take(n));
        assert forall|i: int| 0 <= i < s.len() - n implies is_white(#[trigger] s.skip(n)[i]) by {
            if i < t.len() - n {
                assert(s.skip(n)[i] == t.skip(n)[i]);
            } else {
                assert(s.skip(n)[i] == s.last());
            }
        }
    } else {
        assert(s.take(s.len() as int) =~= s);
    }
}

/// The head of an ASCII text is its first characters.
pub proof fn law_head_of_ascii(s: Seq<char>, n: int)
    requires
        is_ascii_chars(s),
        0 <= n <= s.len(),
    ensures
        head(s, n) == s.take(n),
{
    let b = encode_utf8(s);
    is_ascii_chars_encode_utf8(s);
    assert(is_ascii_chars(s.take(n)));
    is_ascii_chars_encode_utf8(s.take(n));
    assert(b.take(n) =~= encode_utf8(s.take(n)));
    encode_utf8_decode_utf8(s.take(n));
    encode_utf8_valid_utf8(s);
    is_char_boundary_start_end_of_seq(b);
    if 0 < n < b.len() {
        is_char_boundary_iff_not_is_continuation_byte(b, n);
    }
}

/// A line ends at a line feed, with or without a carriage return before it; the last line
/// needs no end.
pub proof fn law_lines(a: Seq<char>, rest: Seq<char>)
    requires
        !a.contains('\n'),
    ensures
        lines(a + seq!['\r', '\n'] + rest) == seq![a] + lines(rest),
        !(a.len() > 0 && a.last() == '\r') ==> lines(a + seq!['\n'] + rest) == seq![a] + lines(
            rest,
        ),
        a.len() > 0 ==> lines(a) == seq![a],
        lines(Seq::empty()) == Seq::<Seq<char>>::empty(),
{
    let b = a.push('\r');
    assert forall|i: int| 0 <= i < b.len() implies b[i] != '\n' by {
        if i < a.len() {
            assert(a.contains(a[i]));
        }
    }
    let s = a + seq!['\r', '\n'] + rest;
    assert(s =~= b + seq!['\n'] + rest);
    law_first_place_is_found(b, '\n', rest);
    assert(s.take(b.len() as int) =~= b);
    assert(b.drop_last() =~= a);
    assert(s.skip(b.len() as int + 1) =~= rest);
    let t = a + seq!['\n'] + rest;
    law_first_place_is_found(a, '\n', rest);
    assert(t.take(a.len() as int) =~= a);
    assert(t.skip(a.len() as int + 1) =~= rest);
}

/// Joining: the separator stands between two texts, and nowhere else.
pub proof fn law_joining(a: Seq<Seq<char>>, b: Seq<Seq<char>>, x: Seq<char>, sep: Seq<char>)
    requires
        a.len() > 0,
        b.len() > 0,
    ensures
        joined(a + b, sep) == joined(a, sep) + sep + joined(b, sep),
        joined(seq![x], sep) == x,
        joined(Seq::empty(), sep) == Seq::<char>::empty(),
    decreases b.len(),
{
    let s = a + b;
    assert(s.last() == b.last());
    if b.len() == 1 {
        assert(s.drop_last() =~= a);
    } else {
        assert(s.drop_last() =~= a + b.drop_last());
        law_joining(a, b.drop_last(), x, sep);
        assert(joined(s, sep) =~= joined(a, sep) + sep + joined(b, sep));
    }
}

} // verus!
