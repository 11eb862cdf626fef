use tftp_rs::display::{color_of_lower, error_label, fmt_bytes, log_color, paths_summary, short_path, Color};
use tftp_rs::send::PathItem;

fn p(s: &str) -> PathItem {
    let name = s.rsplit('/').next().filter(|n| !n.is_empty()).map(|n| n.to_string());
    PathItem { id: 0, shown: s.to_string(), name }
}

#[test]
fn summary_of_selection() {
    assert_eq!(paths_summary(&vec![]), "");
    assert_eq!(paths_summary(&vec![p("/x/y.bin")]), "/x/y.bin");
    assert_eq!(paths_summary(&vec![p("/x/a"), p("/x/b")]), "2 шт.: a, b");
    assert_eq!(
        paths_summary(&vec![p("/x/a"), p("/x/b"), p("/x/c"), p("/x/d")]),
        "4 шт.: a, b, c, d".replace(", d", ", …")
    );
}

#[test]
fn a_path_without_name_is_shown_whole() {
    assert_eq!(paths_summary(&vec![p("/x/a"), p("/")]), "2 шт.: a, /");
}

#[test]
fn long_paths_lose_their_beginning() {
    let sixty = "x".repeat(60);
    assert_eq!(short_path(&sixty), sixty);
    let long = format!("a{}", "я".repeat(60));
    assert_eq!(short_path(&long), format!("…{}", "я".repeat(59)));
}

#[test]
fn errors_get_their_word_once() {
    assert_eq!(error_label("сбой"), "Ошибка: сбой");
    assert_eq!(error_label("Ошибка протокола: x"), "Ошибка протокола: x");
    assert_eq!(error_label(&error_label("сбой")), "Ошибка: сбой");
    assert_eq!(error_label(""), "Ошибка: ");
}

#[test]
fn amounts() {
    assert_eq!(fmt_bytes(0), "0 Б");
    assert_eq!(fmt_bytes(1023), "1023 Б");
    assert_eq!(fmt_bytes(1024), "1.0 КБ");
    assert_eq!(fmt_bytes(1536), "1.5 КБ");
    assert_eq!(fmt_bytes(1_048_575), "1024.0 КБ");
    assert_eq!(fmt_bytes(1_048_576), "1.0 МБ");
    assert_eq!(fmt_bytes(1_073_741_824), "1.00 ГБ");
    assert_eq!(fmt_bytes(u64::MAX), "17179869184.00 ГБ");
}

fn with_floats(n: u64) -> String {
    const K: f64 = 1024.0;
    let f = n as f64;
    if f < K {
        format!("{n} Б")
    } else if f < K * K {
        format!("{:.1} КБ", f / K)
    } else if f < K * K * K {
        format!("{:.1} МБ", f / (K * K))
    } else {
        format!("{:.2} ГБ", f / (K * K * K))
    }
}

#[test]
fn amounts_agree_with_floating_point() {
    for n in 0..200_000u64 {
        assert_eq!(fmt_bytes(n), with_floats(n));
    }
    let mut x: u64 = 0x9e37_79b9_7f4a_7c15;
    for _ in 0..50_000 {
        x ^= x << 13;
        x ^= x >> 7;
        x ^= x << 17;
        for shift in [0, 5, 9, 11, 20, 30, 34, 40, 44, 54] {
            let n = x >> shift;
            assert_eq!(fmt_bytes(n), with_floats(n), "{n}");
        }
    }
    for bit in 0..64 {
        let p = 1u64 << bit;
        for d in 0..3000u64 {
            assert_eq!(fmt_bytes(p.wrapping_add(d)), with_floats(p.wrapping_add(d)));
            assert_eq!(fmt_bytes(p.wrapping_sub(d)), with_floats(p.wrapping_sub(d)));
        }
    }
}

#[test]
fn log_lines_have_colours() {
    assert_eq!(log_color("ОШИБКА приёма"), Color::Red);
    assert_eq!(log_color("  Таймаут, повтор (1/5)"), Color::Orange);
    assert_eq!(log_color("Пропущено (нет доступа): x"), Color::Orange);
    assert_eq!(log_color("✓ a.bin"), Color::Green);
    assert_eq!(log_color("=== ГОТОВО ==="), Color::Green);
    assert_eq!(log_color("→ WRQ a.bin"), Color::White);
    assert_eq!(log_color("✓ таймаут, ошибка"), Color::Red);
}

#[test]
fn colour_goes_by_the_lower_case() {
    assert_eq!(color_of_lower("ошибка"), Color::Red);
    assert_eq!(color_of_lower("ОШИБКА"), Color::White);
}
