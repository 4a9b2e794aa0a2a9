use libmesabox::{parse_num_with_suffix, parse_obsolete_num, pow, SUFFIXES};

#[test]
fn parse_num_invalid() {
    let strings = ["  1", "1  ", "  1  ", "1X", "b", "1 b", "-1"];
    for s in strings.iter() {
        assert_eq!(parse_num_with_suffix(s), None);
    }

    for suffix in &SUFFIXES {
        assert_eq!(parse_num_with_suffix(&suffix.to_string()), None);
        assert_eq!(parse_num_with_suffix(&format!("{}B", suffix)), None);
        assert_eq!(parse_num_with_suffix(&format!("1 {}", suffix)), None);
        assert_eq!(parse_num_with_suffix(&format!("1 {}B", suffix)), None);
    }

    assert_eq!(
        parse_num_with_suffix(&format!("{}1", usize::max_value())),
        None
    );
}

#[test]
fn parse_num_valid() {
    let strings = [("0", 0), ("1", 1), ("1b", 512)];
    for s in strings.iter() {
        assert_eq!(parse_num_with_suffix(s.0), Some(s.1));
    }

    for (i, suffix) in SUFFIXES.iter().enumerate() {
        let exp = i as u32 + 1;

        assert_eq!(
            parse_num_with_suffix(&format!("1{}", suffix)),
            pow(1024, exp)
        );
        assert_eq!(
            parse_num_with_suffix(&format!("1{}B", suffix)),
            pow(1000, exp)
        );
    }

    assert_eq!(
        parse_num_with_suffix(&format!("{}", usize::max_value())),
        Some(usize::max_value())
    );
}

#[test]
fn modern_exact_values() {
    assert_eq!(parse_num_with_suffix("4K"), Some(4096));
    assert_eq!(parse_num_with_suffix("10MB"), Some(10_000_000));
    assert_eq!(parse_num_with_suffix("3b"), Some(1536));
    assert_eq!(parse_num_with_suffix("2G"), Some(2 * 1024 * 1024 * 1024));
    assert_eq!(parse_num_with_suffix("007"), Some(7));
    assert_eq!(parse_num_with_suffix("0K"), Some(0));
}

#[test]
fn modern_rejects_malformed() {
    assert_eq!(parse_num_with_suffix(""), None);
    assert_eq!(parse_num_with_suffix("+1"), None);
    assert_eq!(parse_num_with_suffix("1.5K"), None);
    assert_eq!(parse_num_with_suffix("1KB2"), None);
    assert_eq!(parse_num_with_suffix("1Kb"), None);
    assert_eq!(parse_num_with_suffix("1bK"), None);
    assert_eq!(parse_num_with_suffix("1BB"), None);
    assert_eq!(parse_num_with_suffix("1k"), None);
    assert_eq!(parse_num_with_suffix("B"), None);
}

#[test]
fn modern_overflow() {
    // 1024^7 and 1000^7 do not fit in 64 bits, nor does either unit above.
    assert_eq!(parse_num_with_suffix("1Z"), None);
    assert_eq!(parse_num_with_suffix("0Y"), None);
    assert_eq!(parse_num_with_suffix("1EB"), Some(1_000_000_000_000_000_000));
    assert_eq!(parse_num_with_suffix("16E"), None);
    assert_eq!(parse_num_with_suffix("15E"), Some(15 * (1usize << 60)));
    let big = format!("{}", usize::max_value() / 512 + 1);
    assert_eq!(parse_num_with_suffix(&format!("{}b", big)), None);
}

#[test]
fn legacy_suffixes() {
    assert_eq!(parse_obsolete_num("1k"), Some(1024));
    assert_eq!(parse_obsolete_num("1m"), Some(1024 * 1024));
    assert_eq!(parse_obsolete_num("1kb"), Some(1000));
    assert_eq!(parse_obsolete_num("2mb"), Some(2_000_000));
    assert_eq!(parse_obsolete_num("1b"), Some(512));
    assert_eq!(parse_obsolete_num("42"), Some(42));
}

#[test]
fn legacy_rejects_modern_forms() {
    assert_eq!(parse_obsolete_num("1K"), None);
    assert_eq!(parse_obsolete_num("1kB"), None);
    assert_eq!(parse_obsolete_num("1B"), None);
    assert_eq!(parse_obsolete_num("1bk"), None);
    assert_eq!(parse_obsolete_num("k"), None);
    assert_eq!(parse_obsolete_num("kb"), None);
    assert_eq!(parse_obsolete_num("b"), None);
    assert_eq!(parse_obsolete_num("1 k"), None);
}

#[test]
fn pow_overflow() {
    let root = (usize::max_value() as f64).sqrt().ceil() as usize;

    assert_eq!(pow(root, 2), None);
    assert!(pow(root - 1, 2).is_some());
}

#[test]
fn pow_correct() {
    assert_eq!(pow(1, 0), Some(1));
    assert_eq!(pow(2, 16), Some(65536));
    assert_eq!(pow(256, 2), Some(65536));
}

#[test]
fn pow_edges() {
    assert_eq!(pow(0, 0), Some(1));
    assert_eq!(pow(0, 5), Some(0));
    assert_eq!(pow(3, 5), Some(243));
    assert_eq!(pow(2, 63), Some(1usize << 63));
    assert_eq!(pow(2, 64), None);
    assert_eq!(pow(1, u32::max_value()), Some(1));
    assert_eq!(pow(1024, 6), Some(1usize << 60));
    assert_eq!(pow(1024, 7), None);
}
