use parla::double::Double;
use parla::router::{Route, Router};
use parla::text::{
    capitalize, decimal_text, first_chars, hex_text, signed_text, split_words, trim,
    without_stops,
};

fn every_char() -> impl Iterator<Item = char> {
    (0u32..=0x10FFFF).filter_map(char::from_u32)
}

#[test]
fn trimming_is_what_std_does_for_every_character() {
    for c in every_char() {
        let s = format!("{c}a{c}b{c}");
        assert_eq!(trim(&s), s.trim(), "{c:?}");
        let want: Vec<String> = s.split_whitespace().map(String::from).collect();
        assert_eq!(split_words(&s), want, "{c:?}");
    }
}

#[test]
fn numbers_are_printed_as_std_prints_them() {
    for n in [0u64, 1, 9, 10, 99, 100, 12_345, u64::MAX] {
        assert_eq!(decimal_text(n), n.to_string());
        assert_eq!(hex_text(n), format!("{n:x}"));
    }
    for n in [0i64, 1, -1, 10, -10, i64::from(i32::MIN), i64::from(i32::MAX)] {
        assert_eq!(signed_text(n as i32), n.to_string());
    }
}

#[test]
fn quoting_is_debug_formatting() {
    for s in ["", "plain", "a\"b", "a\\b", "tab\t", "nul\0", "é — ’", "\u{200b}", "'"] {
        let route = Router::new(None, 1, 1).route(s, None, None, 0);
        let Route::Fail(said) = route else {
            panic!("{route:?}");
        };
        assert_eq!(
            said,
            format!("no fast-path match for {s:?} (judged path disabled)")
        );
    }
}

#[test]
fn doubles_show_two_decimals() {
    let mut x: u64 = 0x9E37_79B9_7F4A_7C15;
    let mut draws = vec![
        0.0, -0.0, 0.005, 0.015, 0.025, 0.125, 0.375, 0.994_999_9, 0.995, 0.999, 1.0, 0.5, 0.35,
        0.045, f64::NAN, f64::INFINITY, f64::NEG_INFINITY, 5e-324, 1e-300, 2.5, 123_456.785,
    ];
    for _ in 0..20_000 {
        x ^= x << 13;
        x ^= x >> 7;
        x ^= x << 17;
        draws.push((x >> 11) as f64 / (1u64 << 53) as f64);
    }
    for v in draws {
        let d = Double { bits: v.to_bits() };
        assert_eq!(d.shown(), format!("{v:.2}"), "{v:?}");
    }
}

#[test]
fn characters_are_counted_not_bytes() {
    assert_eq!(first_chars("éàü", 2), "éà");
    assert_eq!(first_chars("ab", 5), "ab");
    assert_eq!(without_stops("a.b,c"), "abc");
}

#[test]
fn capitals_are_what_std_makes_them() {
    for c in every_char() {
        let s = format!("{c}x");
        let want: String = c.to_uppercase().collect::<String>() + "x";
        assert_eq!(capitalize(&s), want, "{c:?}");
    }
    assert_eq!(capitalize(""), "");
}
