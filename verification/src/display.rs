//! How things are shown to the user: amounts of data, paths, errors, log lines.
use crate::outside;
use crate::send;
use crate::send::PathItem;
use crate::text;
use vstd::prelude::*;

verus! {

/// The colours of the user interface.
#[derive(Clone, Copy, Debug, PartialEq, Eq, Structural)]
pub enum Color {
    Green,
    Red,
    Orange,
    White,
    Gray,
}

// ---------------------------------------------------------------- amounts
/// `n / d`, rounded to the nearest integer; a tie goes to the even one.
pub open spec fn rounded(n: nat, d: nat) -> nat {
    let q = n / d;
    let r = n % d;
    if 2 * r > d || (2 * r == d && q % 2 == 1) {
        q + 1
    } else {
        q
    }
}

/// The distance of the numbers of 53 significant bits around `n`.
pub open spec fn spacing(n: u64) -> nat {
    if n < 0x20_0000_0000_0000 {
        1
    } else if n < 0x40_0000_0000_0000 {
        2
    } else if n < 0x80_0000_0000_0000 {
        4
    } else if n < 0x100_0000_0000_0000 {
        8
    } else if n < 0x200_0000_0000_0000 {
        16
    } else if n < 0x400_0000_0000_0000 {
        32
    } else if n < 0x800_0000_0000_0000 {
        64
    } else if n < 0x1000_0000_0000_0000 {
        128
    } else if n < 0x2000_0000_0000_0000 {
        256
    } else if n < 0x4000_0000_0000_0000 {
        512
    } else if n < 0x8000_0000_0000_0000 {
        1024
    } else {
        2048
    }
}

/// `n` rounded to 53 significant bits.
pub open spec fn to_53_bits(n: u64) -> nat {
    rounded(n as nat, spacing(n)) * spacing(n)
}

/// A number of tenths with one digit behind the point.
pub open spec fn tenths(t: nat) -> Seq<char> {
    text::dec(t / 10) + "."@ + text::dec(t % 10)
}

/// A number of hundredths with two digits behind the point.
pub open spec fn hundredths(h: nat) -> Seq<char> {
    text::dec(h / 100) + "."@ + text::dec((h / 10) % 10) + text::dec(h % 10)
}

/// An amount of data: bytes up to 1024, then thousands, millions and billions (in
/// powers of 1024), with one digit behind the point, two from billions on. Large amounts
/// are taken to 53 significant bits first.
pub open spec fn amount_text(n: u64) -> Seq<char> {
    if n < 1024 {
        text::dec(n as nat) + " Б"@
    } else if n < 1_048_576 {
        tenths(rounded(n as nat * 10, 1024)) + " КБ"@
    } else if n < 1_073_741_824 {
        tenths(rounded(n as nat * 10, 1_048_576)) + " МБ"@
    } else {
        hundredths(rounded(to_53_bits(n) * 100, 1_073_741_824)) + " ГБ"@
    }
}

fn round_div(n: u128, d: u128) -> (r: u128)
    requires
        0 < d < 0x1_0000_0000,
    ensures
        r == rounded(n as nat, d as nat),
        r <= n + 1,
{
    let q: u128 = n / d;
    let rest: u128 = n % d;
    assert(rest < d) by (nonlinear_arith)
        requires
            rest == n % d,
            d > 0,
    ;
    assert(q <= n) by (nonlinear_arith)
        requires
            q == n / d,
            d > 0,
    ;
    if 2 * rest > d || (2 * rest == d && q % 2 == 1) {
        assert(q < u128::MAX) by (nonlinear_arith)
            requires
                q == n / d,
                rest == n % d,
                rest > 0,
                d > 0,
                n <= u128::MAX,
        ;
        q + 1
    } else {
        q
    }
}

fn spacing_of(n: u64) -> (r: u128)
    ensures
        r == spacing(n),
        1 <= r <= 2048,
{
    if n < 0x20_0000_0000_0000 {
        1
    } else if n < 0x40_0000_0000_0000 {
        2
    } else if n < 0x80_0000_0000_0000 {
        4
    } else if n < 0x100_0000_0000_0000 {
        8
    } else if n < 0x200_0000_0000_0000 {
        16
    } else if n < 0x400_0000_0000_0000 {
        32
    } else if n < 0x800_0000_0000_0000 {
        64
    } else if n < 0x1000_0000_0000_0000 {
        128
    } else if n < 0x2000_0000_0000_0000 {
        256
    } else if n < 0x4000_0000_0000_0000 {
        512
    } else if n < 0x8000_0000_0000_0000 {
        1024
    } else {
        2048
    }
}

/// Shows an amount of data.
pub fn fmt_bytes(n: u64) -> (r: String)
    ensures
        r@ == amount_text(n),
{
    let mut s = String::new();
    if n < 1024 {
        text::push_dec(&mut s, n);
        s.append(" Б");
        assert(s@ =~= amount_text(n));
        return s;
    }
    if n < 1_073_741_824 {
        let mega = n >= 1_048_576;
        let t: u128 = if mega {
            round_div(n as u128 * 10, 1_048_576)
        } else {
            round_div(n as u128 * 10, 1024)
        };
        text::push_dec(&mut s, (t / 10) as u64);
        s.append(".");
        text::push_dec(&mut s, (t % 10) as u64);
        if mega {
            s.append(" МБ");
        } else {
            s.append(" КБ");
        }
        assert(s@ =~= amount_text(n));
        return s;
    }
    let unit: u128 = spacing_of(n);
    let steps: u128 = round_div(n as u128, unit);
    assert(steps * unit <= (n as nat + 1) * 2048) by (nonlinear_arith)
        requires
            steps <= n as nat + 1,
            unit <= 2048,
    ;
    let whole: u128 = steps * unit;
    let h: u128 = round_div(whole * 100, 1_073_741_824);
    proof {
        lemma_53_bits(n);
        assert(whole <= 0x1_0000_0000_0000_0000);
        assert(whole * 100 / 1_073_741_824 <= 0x1_0000_0000_0000);
    }
    text::push_dec(&mut s, (h / 100) as u64);
    s.append(".");
    text::push_dec(&mut s, ((h / 10) % 10) as u64);
    text::push_dec(&mut s, (h % 10) as u64);
    s.append(" ГБ");
    assert(s@ =~= amount_text(n));
    s
}

proof fn lemma_53_bits(n: u64)
    ensures
        to_53_bits(n) <= 0x1_0000_0000_0000_0000,
{
    let u = spacing(n);
    let q = n as nat / u;
    assert(rounded(n as nat, u) <= q + 1);
    if u == 2048 {
        assert(q <= 0x1f_ffff_ffff_ffff);
    }
}

// ---------------------------------------------------------------- paths
/// A path is shown with at most this many characters.
pub const MAX_PATH: usize = 60;

/// A path that is too long loses its beginning.
pub open spec fn shortened(s: Seq<char>) -> Seq<char> {
    if s.len() <= MAX_PATH {
        s
    } else {
        "…"@ + s.skip(s.len() - (MAX_PATH - 1))
    }
}

/// Shows a path.
pub fn short_path(s: &str) -> (r: String)
    ensures
        r@ == shortened(s@),
{
    let v = text::chars_of(s);
    if v.len() <= MAX_PATH {
        return s.to_owned();
    }
    let from: usize = v.len() - (MAX_PATH - 1);
    let mut m = "…".to_owned();
    let tail = text::text_range(&v, from, v.len());
    assert(tail@ =~= s@.skip(from as int));
    m.append(tail.as_str());
    m
}

/// How a path is named among several.
pub open spec fn brief(p: send::PathView) -> Seq<char> {
    match p.name {
        Some(n) => n,
        None => p.shown,
    }
}

/// The names of the first three paths, or of all if there are fewer.
pub open spec fn first_names(v: Seq<send::PathView>) -> Seq<Seq<char>> {
    let few = if v.len() > 3 {
        v.take(3)
    } else {
        v
    };
    few.map_values(|p: send::PathView| brief(p))
}

/// What was chosen: one path as it is, several by number and names.
pub open spec fn summary(v: Seq<send::PathView>) -> Seq<char> {
    if v.len() == 0 {
        Seq::empty()
    } else if v.len() == 1 {
        shortened(v[0].shown)
    } else {
        text::dec(v.len()) + " шт.: "@ + text::joined(first_names(v), ", "@) + (if v.len() > 3 {
            ", …"@
        } else {
            ""@
        })
    }
}

/// Shows what was chosen.
pub fn paths_summary(paths: &Vec<PathItem>) -> (r: String)
    ensures
        r@ == summary(send::path_views(paths@)),
{
    let ghost v = send::path_views(paths@);
    if paths.len() == 0 {
        return String::new();
    }
    if paths.len() == 1 {
        assert(v[0] == paths@[0]@);
        return short_path(paths[0].shown.as_str());
    }
    let count: usize = if paths.len() > 3 { 3 } else { paths.len() };
    let mut names: Vec<String> = Vec::new();
    let mut i: usize = 0;
    while i < count
        invariant
            i <= count <= paths.len(),
            v == send::path_views(paths@),
            names.len() == i,
            forall|j: int| 0 <= j < i ==> (#[trigger] names@[j])@ == brief(v[j]),
        decreases count - i,
    {
        let p = &paths[i];
        assert(v[i as int] == p@);
        let name = match &p.name {
            Some(n) => n.clone(),
            None => p.shown.clone(),
        };
        names.push(name);
        i = i + 1;
    }
    assert(text::texts(names@) =~= first_names(v));
    let mut m = text::dec_text(paths.len() as u64);
    m.append(" шт.: ");
    m.append(text::join(&names, ", ").as_str());
    m.append(
        if paths.len() > 3 {
            ", …"
        } else {
            ""
        },
    );
    m
}

// ---------------------------------------------------------------- errors and log
/// The word that an error starts with.
pub const ERROR_WORD: &'static str = "Ошибка";

/// An error as it is shown: a reason that already starts with the word gets it no second time.
pub open spec fn labelled(e: Seq<char>) -> Seq<char> {
    if text::begins(e, ERROR_WORD@) {
        e
    } else {
        "Ошибка: "@ + e
    }
}

/// Shows an error.
pub fn error_label(e: &str) -> (r: String)
    ensures
        r@ == labelled(e@),
{
    if text::text_begins(e, ERROR_WORD) {
        return e.to_owned();
    }
    let mut m = "Ошибка: ".to_owned();
    m.append(e);
    m
}

/// Whether a log line, in lower case, reports an error.
pub open spec fn reports_error(low: Seq<char>) -> bool {
    text::occurs(low, "ошибк"@)
}

/// The colour of a log line, from the line in lower case.
pub open spec fn line_color(low: Seq<char>) -> Color {
    if reports_error(low) {
        Color::Red
    } else if text::occurs(low, "таймаут"@) || text::occurs(low, "пропущено"@) {
        Color::Orange
    } else if low.contains('✓') || text::occurs(low, "готово"@) {
        Color::Green
    } else {
        Color::White
    }
}

/// Whether a log line, in lower case, reports an error.
pub fn is_error_line(low: &str) -> (r: bool)
    ensures
        r == reports_error(low@),
{
    text::text_occurs(low, "ошибк")
}

/// The colour of a log line, from the line in lower case.
pub fn color_of_lower(low: &str) -> (r: Color)
    ensures
        r == line_color(low@),
{
    let v = text::chars_of(low);
    let tick: usize = text::find_char(&v, '✓');
    proof {
        text::lemma_find(low@, '✓');
        if tick < v.len() {
            assert(low@[tick as int] == '✓');
        }
    }
    if is_error_line(low) {
        Color::Red
    } else if text::text_occurs(low, "таймаут") || text::text_occurs(low, "пропущено") {
        Color::Orange
    } else if tick < v.len() || text::text_occurs(low, "готово") {
        Color::Green
    } else {
        Color::White
    }
}

/// The colour of a log line.
pub fn log_color(line: &str) -> (r: Color)
    ensures
        r == line_color(outside::lowercase(line@)),
{
    let low = outside::to_lowercase(line);
    color_of_lower(low.as_str())
}

// ---------------------------------------------------------------- laws
/// A shown path has at most `MAX_PATH` characters and ends as the path does.
pub proof fn law_short_path_keeps_the_end(s: Seq<char>)
    ensures
        shortened(s).len() <= MAX_PATH,
        s.len() > MAX_PATH ==> shortened(s).skip(1) == s.skip(s.len() - 59),
        s.len() <= MAX_PATH ==> shortened(s) == s,
{
    reveal_strlit("…");
    if s.len() > MAX_PATH {
        assert(shortened(s).skip(1) =~= s.skip(s.len() - 59));
    }
}

/// A shown error always starts with the word, and showing it twice adds nothing.
pub proof fn law_error_label_once(e: Seq<char>)
    ensures
        text::begins(labelled(e), ERROR_WORD@),
        labelled(labelled(e)) == labelled(e),
{
    reveal_strlit("Ошибка");
    reveal_strlit("Ошибка: ");
    if !text::begins(e, ERROR_WORD@) {
        assert(labelled(e).take(ERROR_WORD@.len() as int) =~= ERROR_WORD@);
    }
}

/// Amounts under a gigabyte: bytes up to 1023; then kilobytes of 1024 bytes, and megabytes of
/// 1024 kilobytes, with the tenths that come nearest, an even tenth where two come as near.
pub proof fn law_amounts_are_rounded(n: u64, t: nat)
    ensures
        n < 1024 ==> amount_text(n) == text::dec(n as nat) + " Б"@,
        1024 <= n < 1_048_576 && nearest(t, 1024, n as nat * 10) ==> amount_text(n) == text::dec(
            t / 10,
        ) + "."@ + text::dec(t % 10) + " КБ"@,
        1_048_576 <= n < 1_073_741_824 && nearest(t, 1_048_576, n as nat * 10) ==> amount_text(n)
            == text::dec(t / 10) + "."@ + text::dec(t % 10) + " МБ"@,
{
}

/// Whether `q` times `d` comes as near to `n` as any multiple of `d` can, `q` being even where
/// two come as near.
pub open spec fn nearest(q: nat, d: nat, n: nat) -> bool {
    let off = 2 * (q * d - n);
    -d <= off <= d && (off == d || off == -d ==> q % 2 == 0)
}

/// Amounts from a gigabyte on, with the hundredths that come nearest, an even hundredth where
/// two come as near. An amount of more than 53 bits counts with its first 53: the nearest
/// multiple `m` of the power of two `u` that the rest of its bits makes up.
pub proof fn law_large_amounts_are_rounded(n: u64, u: nat, m: nat, h: nat)
    requires
        n >= 1_073_741_824,
        u == 1 || u == 2 || u == 4 || u == 8 || u == 16 || u == 32 || u == 64 || u == 128 || u
            == 256 || u == 512 || u == 1024 || u == 2048,
        n < u * 0x20_0000_0000_0000,
        u == 1 || n >= u * 0x10_0000_0000_0000,
        nearest(m, u, n as nat),
        nearest(h, 1_073_741_824, m * u * 100),
    ensures
        amount_text(n) == text::dec(h / 100) + "."@ + text::dec((h / 10) % 10) + text::dec(h % 10)
            + " ГБ"@,
{
    assert(spacing(n) == u);
    lemma_nearest(m, u, n as nat);
    lemma_nearest(h, 1_073_741_824, m * u * 100);
}

/// Only one number comes nearest.
proof fn lemma_nearest(q: nat, d: nat, n: nat)
    requires
        d > 0,
        nearest(q, d, n),
    ensures
        rounded(n, d) == q,
{
    let a = n / d;
    let r = n % d;
    vstd::arithmetic::div_mod::lemma_fundamental_div_mod(n as int, d as int);
    assert(0 <= r < d);
    assert(d * a == a * d) by (nonlinear_arith);
    if q >= a + 2 {
        assert(q * d >= (a + 2) * d) by (nonlinear_arith)
            requires
                q >= a + 2,
        ;
        assert((a + 2) * d == a * d + 2 * d) by (nonlinear_arith);
    } else if q < a {
        assert(a * d >= (q + 1) * d) by (nonlinear_arith)
            requires
                q < a,
        ;
        assert((q + 1) * d == q * d + d) by (nonlinear_arith);
    } else if q == a + 1 {
        assert((a + 1) * d == a * d + d) by (nonlinear_arith);
    }
}

/// A path of up to sixty characters is shown whole; of a longer one the last fifty-nine, behind
/// the sign for what is left out.
pub proof fn law_long_paths_are_cut(a: Seq<char>, b: Seq<char>)
    ensures
        b.len() <= 60 ==> shortened(b) == b,
        a.len() > 1 && b.len() == 59 ==> shortened(a + b) == seq!['…'] + b,
{
    reveal_strlit("…");
    assert("…"@ =~= seq!['…']);
    if a.len() > 1 && b.len() == 59 {
        assert((a + b).skip(a.len() as int) =~= b);
    }
}

/// How chosen paths are summed up: nothing for none, the path for one, and for more their number
/// and the names of the first three, each by its last part where it has one.
pub proof fn law_summary_of_paths(
    p: send::PathView,
    q: send::PathView,
    r: send::PathView,
    more: Seq<send::PathView>,
)
    requires
        more.len() > 0,
    ensures
        summary(Seq::empty()) == Seq::<char>::empty(),
        summary(seq![p]) == shortened(p.shown),
        summary(seq![p, q]) == text::dec(2) + " шт.: "@ + brief(p) + ", "@ + brief(q),
        summary(seq![p, q, r]) == text::dec(3) + " шт.: "@ + brief(p) + ", "@ + brief(q) + ", "@
            + brief(r),
        summary(seq![p, q, r] + more) == text::dec(3 + more.len()) + " шт.: "@ + brief(p) + ", "@
            + brief(q) + ", "@ + brief(r) + ", …"@,
{
    reveal_strlit("");
    let a = brief(p);
    let b = brief(q);
    let c = brief(r);
    let two = first_names(seq![p, q]);
    assert(two =~= seq![a] + seq![b]);
    text::law_joining(seq![a], seq![b], a, ", "@);
    text::law_joining(seq![a], seq![b], b, ", "@);
    assert(summary(seq![p, q]) =~= text::dec(2) + " шт.: "@ + a + ", "@ + b);
    let three = first_names(seq![p, q, r]);
    assert(three =~= seq![a] + seq![b] + seq![c]);
    text::law_joining(seq![a] + seq![b], seq![c], c, ", "@);
    assert(summary(seq![p, q, r]) =~= text::dec(3) + " шт.: "@ + a + ", "@ + b + ", "@ + c);
    let all = seq![p, q, r] + more;
    assert(all.take(3) =~= seq![p, q, r]);
    assert(first_names(all) =~= three);
    assert(summary(all) =~= text::dec(3 + more.len()) + " шт.: "@ + a + ", "@ + b + ", "@ + c
        + ", …"@);
}

/// What stands for a path in a summary: its last part, or all of it where there is none.
pub proof fn law_path_in_brief(p: send::PathView, name: Seq<char>)
    ensures
        p.name == Some(name) ==> brief(p) == name,
        p.name is None ==> brief(p) == p.shown,
{
}

/// A failure is shown with the word for it in front, unless it stands there already.
pub proof fn law_failures_are_labelled(e: Seq<char>, s: Seq<char>)
    ensures
        labelled("Ошибка"@ + s) == "Ошибка"@ + s,
        !text::begins(e, "Ошибка"@) ==> labelled(e) == "Ошибка: "@ + e,
{
    assert(("Ошибка"@ + s).take("Ошибка"@.len() as int) =~= "Ошибка"@);
}

/// The colour of a line follows from the words in it: failures first, then what was late or left
/// out, then what went well; any other line is white.
pub proof fn law_words_colour_a_line(a: Seq<char>, b: Seq<char>, low: Seq<char>)
    ensures
        line_color(a + "ошибк"@ + b) == Color::Red,
        reports_error(a + "ошибк"@ + b),
        reports_error(low) <==> text::occurs(low, "ошибк"@),
        !text::occurs(a + "таймаут"@ + b, "ошибк"@) ==> line_color(a + "таймаут"@ + b)
            == Color::Orange,
        !text::occurs(a + "пропущено"@ + b, "ошибк"@) ==> line_color(a + "пропущено"@ + b)
            == Color::Orange,
        ({
            let s = a + "готово"@ + b;
            !text::occurs(s, "ошибк"@) && !text::occurs(s, "таймаут"@) && !text::occurs(
                s,
                "пропущено"@,
            ) ==> line_color(s) == Color::Green
        }),
        ({
            let s = a + seq!['✓'] + b;
            !text::occurs(s, "ошибк"@) && !text::occurs(s, "таймаут"@) && !text::occurs(
                s,
                "пропущено"@,
            ) ==> line_color(s) == Color::Green
        }),
        !text::occurs(low, "ошибк"@) && !text::occurs(low, "таймаут"@) && !text::occurs(
            low,
            "пропущено"@,
        ) && !text::occurs(low, "готово"@) && !low.contains('✓') ==> line_color(low)
            == Color::White,
{
    text::law_parts_of_a_text(a, "ошибк"@, b, low);
    text::law_parts_of_a_text(a, "таймаут"@, b, low);
    text::law_parts_of_a_text(a, "пропущено"@, b, low);
    text::law_parts_of_a_text(a, "готово"@, b, low);
    let s = a + seq!['✓'] + b;
    assert(s[a.len() as int] == '✓');
}

} // verus!
