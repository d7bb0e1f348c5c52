use redis_operator::big::Big;
use redis_operator::controller::parse_quantity_bytes;
use redis_operator::float_text::scale_literal;
use redis_operator::number::{
    i32_text, i64_text, parse_i32, parse_i64, parse_u16, parse_u64, u64_text,
};
use redis_operator::order::{precedes, stable_order};
use redis_operator::str_map::StrMap;
use redis_operator::text;

#[test]
fn text_is_cut_as_the_standard_library_cuts_it() {
    for s in [
        "", "a", "a\n", "a\r\nb", "a\rb\n\n", "\r", "x\r", "\n\r\n", " \u{a0}é\u{2003}z\t",
        "a,b,,c", ",", "k=v=w", "=", "  two  words ", "(nil) ) x", "\"q\"", "\u{3000}",
    ] {
        assert_eq!(text::lines(s), s.lines().collect::<Vec<_>>(), "{s:?}");
        assert_eq!(text::trim(s), s.trim(), "{s:?}");
        assert_eq!(text::split(s, ','), s.split(',').collect::<Vec<_>>(), "{s:?}");
        assert_eq!(
            text::split_whitespace(s),
            s.split_whitespace().collect::<Vec<_>>(),
            "{s:?}"
        );
        assert_eq!(text::split_once(s, '='), s.split_once('='), "{s:?}");
        assert_eq!(text::split_once_text(s, ") "), s.split_once(") "), "{s:?}");
        assert_eq!(text::strip_prefix(s, "a"), s.strip_prefix("a"), "{s:?}");
        assert_eq!(text::strip_suffix(s, "b"), s.strip_suffix("b"), "{s:?}");
        assert_eq!(text::starts_with(s, "(nil)"), s.starts_with("(nil)"), "{s:?}");
        assert_eq!(text::trim_matches(s, '"'), s.trim_matches('"'), "{s:?}");
        assert_eq!(text::before(s, '='), s.split('=').next().unwrap(), "{s:?}");
    }
}

#[test]
fn white_space_is_that_of_unicode() {
    for c in '\u{0}'..='\u{ffff}' {
        assert_eq!(text::is_space_char(c), c.is_whitespace(), "{c:?}");
    }
}

#[test]
fn integers_are_read_as_the_standard_library_reads_them() {
    for s in [
        "", "+", "-", "0", "-0", "+7", "007", "65535", "65536", "2147483647", "2147483648",
        "-2147483648", "-2147483649", "9223372036854775807", "-9223372036854775808",
        "18446744073709551615", "18446744073709551616", "1x", " 1", "--1", "٣",
        "99999999999999999999999999",
    ] {
        assert_eq!(parse_u16(s), s.parse().ok(), "{s:?}");
        assert_eq!(parse_u64(s), s.parse().ok(), "{s:?}");
        assert_eq!(parse_i32(s), s.parse().ok(), "{s:?}");
        assert_eq!(parse_i64(s), s.parse().ok(), "{s:?}");
    }
}

#[test]
fn what_is_written_reads_back() {
    for n in [0, 7, 10, 1234567890, u64::MAX] {
        assert_eq!(u64_text(n), n.to_string());
        assert_eq!(parse_u64(&u64_text(n)), Some(n));
    }
    for n in [i64::MIN, -1, 0, i64::MAX] {
        assert_eq!(i64_text(n), n.to_string());
        assert_eq!(parse_i64(&i64_text(n)), Some(n));
    }
    assert_eq!(i32_text(i32::MIN), "-2147483648");
}

#[test]
fn texts_are_ordered_as_strings_are() {
    let all = ["", "a", "ab", "b", "é", "z", "\u{ffff}", "\u{10000}", "db10", "db2"];
    for a in all {
        for b in all {
            assert_eq!(precedes(a, b), a < b, "{a:?} {b:?}");
        }
    }
    let keys = vec![vec!["b", "1"], vec!["a", "2"], vec!["b", "0"], vec!["a", "2"]];
    assert_eq!(stable_order(&keys), vec![1, 3, 2, 0]);
}

#[test]
fn a_map_holds_one_value_per_key_in_order() {
    let mut m: StrMap<i32> = StrMap::new();
    for (k, v) in [("b", 1), ("a", 2), ("c", 3), ("b", 4)] {
        m.insert(k.to_string(), v);
    }
    assert_eq!(m.len(), 3);
    assert_eq!(m.key_at(0), "a");
    assert_eq!(*m.value_at(1), 4);
    assert_eq!(m.get("c"), Some(&3));
    assert_eq!(m.get("d"), None);
}

#[test]
fn texts_are_joined() {
    let v = vec!["a".to_string(), "b".to_string(), "".to_string()];
    assert_eq!(text::join(&v, ", "), "a, b, ");
    assert_eq!(text::join(&vec![], ", "), "");
    assert_eq!(text::concat(&vec!["x", "", "yz"]), "xyz");
    assert!(text::same("é", "é"));
    assert!(!text::same("é", "e"));
}

#[test]
fn large_numbers_are_exact() {
    let mut n = Big::one();
    for _ in 0..10 {
        n = n.times_plus(4_000_000_000, 7);
    }
    let less = n.minus(&Big::one()).unwrap();
    assert!(less.minus(&n).is_none());
    assert!(n.minus(&n).unwrap().is_zero());
    assert!(!less.is_zero());
}

/// What the machine's own floating point gives for a number; nothing for words
/// such as `inf`.
fn as_floats_do(q: &str, m: u64) -> Option<u64> {
    if !q.contains(|c: char| c.is_ascii_digit()) {
        return None;
    }
    let v: f64 = q.parse().ok()?;
    Some((v * m as f64) as u64)
}

#[test]
fn scaling_rounds_as_floating_point_does() {
    let texts = [
        "0", "1", "1.005", "4.35", "0.1", "0.3", "1e3", "1E-3", "123456789.987654321", ".5", "5.",
        "-1", "-0", "+2.5", "inf", "-inf", "nan", "INFINITY", "1e400", "1e-400", "0e999999999999",
        "1e99999999999999999999999999999999999999", "1e-99999999999999999999999999999999999999",
        "9007199254740993", "9007199254740992.5", "9007199254740993.0000000000000000000001",
        "18446744073709551615", "18446744073709551616", "0.000000000000000000867361737988403547",
        "8.67361737988403547e-19", "2.5e-16", "179769313486231580793e289", "5e-324",
        "0.1000000000000000055511151231257827021181583404541015625", "1.5", "2.675", "1e19", "1e20",
        "33.3333333333333333333", "99999999999999999999999999999999999999999999", "1x", "", ".", "e1",
    ];
    for t in texts {
        for m in [1_000, 1_024, 1_000_000_000, 1_099_511_627_776, 1_000_000_000_000_000_000,
            1_152_921_504_606_846_976]
        {
            assert_eq!(scale_literal(t, m), as_floats_do(t, m), "{t:?} times {m}");
        }
    }
}

#[test]
fn scaling_agrees_with_floating_point_on_many_numbers() {
    let mut x: u64 = 88172645463325252;
    for i in 0..2000u32 {
        x ^= x << 13;
        x ^= x >> 7;
        x ^= x << 17;
        let t = format!("{}.{}", x % 10u64.pow(i % 12), x >> (i % 40));
        for m in [1_000, 1_024, 1_000_000, 1_073_741_824, 1_152_921_504_606_846_976] {
            assert_eq!(scale_literal(&t, m), as_floats_do(&t, m), "{t:?} times {m}");
        }
        let t = format!("{}e-{}", x, i % 30);
        assert_eq!(scale_literal(&t, 1_024), as_floats_do(&t, 1_024), "{t:?}");
    }
}

#[test]
fn quantities_with_fractions_and_odd_spellings() {
    assert_eq!(parse_quantity_bytes("1.5Gi"), Some(1_610_612_736));
    assert_eq!(parse_quantity_bytes(" 2 Ki "), Some(2048));
    // As the product comes out in floating point.
    assert_eq!(parse_quantity_bytes("1.005K"), Some(1004));
    assert_eq!(parse_quantity_bytes("5E"), Some(5_000_000_000_000_000_000));
    assert_eq!(parse_quantity_bytes("1e3Ki"), Some(1_024_000));
    assert_eq!(parse_quantity_bytes("999Ei"), Some(u64::MAX));
    assert_eq!(parse_quantity_bytes("1.5"), None);
    assert_eq!(parse_quantity_bytes("+5"), Some(5));
    assert_eq!(parse_quantity_bytes("500m"), None);
    assert_eq!(parse_quantity_bytes("Gi"), None);
}

#[test]
fn what_is_no_quantity_has_no_bytes() {
    for q in [
        "nanGi", "NaNK", "infGi", "-infGi", "+InfinityKi", "infinityE", "-1", "Ki",
        " Mi", ".Gi", "1eGi", "1,5Gi", "0x1Ki",
    ] {
        assert_eq!(parse_quantity_bytes(q), None, "{q:?}");
    }
    assert_eq!(parse_quantity_bytes("0Gi"), Some(0));
    // Below zero there are no bytes to count.
    for q in ["-0Gi", "-1Gi", "-0.5K", "-1e30E"] {
        assert_eq!(parse_quantity_bytes(q), Some(0), "{q:?}");
    }
}

#[test]
fn whole_units_are_exact() {
    assert_eq!(parse_quantity_bytes("15Ei"), Some(15 << 60));
    assert_eq!(parse_quantity_bytes("18E"), Some(18_000_000_000_000_000_000));
    assert_eq!(parse_quantity_bytes("9007199254740993Ki"), Some(9007199254740992 << 10));
    assert_eq!(parse_quantity_bytes("18446744073709551615"), Some(u64::MAX));
    assert_eq!(parse_quantity_bytes("9007199254740993"), Some(9007199254740993));
    for (unit, factor) in [
        ("Ki", 1u64 << 10),
        ("Mi", 1 << 20),
        ("Gi", 1 << 30),
        ("K", 1_000),
        ("M", 1_000_000),
        ("G", 1_000_000_000),
    ] {
        for n in [0, 1, 3, 999, 123_456] {
            assert_eq!(
                parse_quantity_bytes(&format!("{n}{unit}")),
                Some(n * factor)
            );
        }
    }
}
