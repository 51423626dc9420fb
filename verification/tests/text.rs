use large_json_reader::size::human_bytes;
use large_json_reader::text::{
    chars_of, digits, is_whitespace, parse_u64, push_decimal, same_text, spells, string_of, trim,
};

fn by_floats(bytes: u64) -> String {
    let units = ["B", "KiB", "MiB", "GiB"];
    let mut value = bytes as f64;
    let mut unit = 0;
    while value >= 1024.0 && unit < 3 {
        value /= 1024.0;
        unit += 1;
    }
    if unit == 0 {
        format!("{bytes} B")
    } else {
        format!("{value:.1} {}", units[unit])
    }
}

#[test]
fn knows_whitespace() {
    for c in '\0'..=char::MAX {
        assert_eq!(is_whitespace(c), c.is_whitespace());
    }
}

#[test]
fn takes_texts_apart_and_puts_them_together() {
    let chars = chars_of("añ€😀");
    assert_eq!(chars, vec!['a', 'ñ', '€', '😀']);
    assert_eq!(string_of(&chars, 1, 3), "ñ€");
    assert_eq!(string_of(&chars, 2, 2), "");
    assert!(spells(&chars, 0, 2, &chars_of("añ")));
    assert!(!spells(&chars, 0, 2, &chars_of("an")));
    assert!(!spells(&chars, 0, 2, &chars_of("a")));
    assert!(same_text("q", "q"));
    assert!(!same_text("q", "Q"));
    assert!(!same_text("q", ""));
}

#[test]
fn writes_and_reads_numbers() {
    for n in [0, 7, 10, 99, 100, 65535, u64::MAX - 1, u64::MAX] {
        let mut text = "n=".to_owned();
        push_decimal(&mut text, n);
        assert_eq!(text, format!("n={n}"));
        assert_eq!(digits(n), n.to_string().len());
        assert_eq!(parse_u64(&n.to_string()), Some(n));
    }
}

#[test]
fn reads_numbers_as_the_standard_library_does() {
    for text in [
        "", "+", "-", "0", "-0", "+0", "007", "+12", "++1", "1+", " 1", "1 ", "12a", "1_000", "٣",
        "18446744073709551615", "18446744073709551616", "+18446744073709551615",
        "99999999999999999999", "000000000000000000000000000001",
    ] {
        assert_eq!(parse_u64(text), text.parse::<u64>().ok());
    }
}

#[test]
fn trims_as_the_standard_library_does() {
    for text in ["", " ", "a", " a b ", "\t\u{a0}x\u{3000}\n", "x\u{200b}", "\u{85}\u{2028}"] {
        assert_eq!(trim(text), text.trim());
    }
}

#[test]
fn tells_sizes() {
    assert_eq!(human_bytes(0), "0 B");
    assert_eq!(human_bytes(1023), "1023 B");
    assert_eq!(human_bytes(1024), "1.0 KiB");
    assert_eq!(human_bytes(1536), "1.5 KiB");
    assert_eq!(human_bytes(1_048_575), "1024.0 KiB");
    assert_eq!(human_bytes(1_048_576), "1.0 MiB");
    assert_eq!(human_bytes(5_368_709_120), "5.0 GiB");
    assert_eq!(human_bytes(u64::MAX), "17179869184.0 GiB");
}

#[test]
fn tells_sizes_as_floating_point_does() {
    let mut samples: Vec<u64> = (0..70_000).collect();
    for bit in 10..64 {
        for shift in 0..12 {
            let base = 1_u64 << bit;
            samples.push(base + (base >> (shift + 1)));
            samples.push(base.wrapping_sub(shift + 1));
            samples.push(base + shift);
            samples.push(base + base / 20 * (shift % 20) + 1);
        }
    }
    let mut seed = 88_172_645_463_325_252_u64;
    for _ in 0..50_000 {
        seed ^= seed << 13;
        seed ^= seed >> 7;
        seed ^= seed << 17;
        samples.push(seed);
        samples.push(seed >> (seed % 54));
    }
    samples.push(u64::MAX);
    for bytes in samples {
        assert_eq!(human_bytes(bytes), by_floats(bytes));
    }
}
