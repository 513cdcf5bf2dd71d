use ifmon::utils::format::{format_optional, format_total_bytes};

/// The float computation that the byte formatting is defined by.
fn float_reference(bytes: u64) -> String {
    let b = bytes as f64;
    let kib = 1024.0;
    let mib = 1024.0 * 1024.0;
    let gib = 1024.0 * 1024.0 * 1024.0;
    let (v, unit) = if b < kib {
        (b, "B")
    } else if b < mib {
        (b / kib, "KB")
    } else if b < gib {
        (b / mib, "MB")
    } else {
        (b / gib, "GB")
    };
    if unit == "B" {
        format!("{v:.0} {unit}")
    } else {
        format!("{v:.2} {unit}")
    }
}

#[test]
fn bytes_are_whole_numbers() {
    assert_eq!(format_total_bytes(0), "0 B");
    assert_eq!(format_total_bytes(7), "7 B");
    assert_eq!(format_total_bytes(1023), "1023 B");
}

#[test]
fn larger_units_have_two_decimals() {
    assert_eq!(format_total_bytes(1024), "1.00 KB");
    assert_eq!(format_total_bytes(1536), "1.50 KB");
    assert_eq!(format_total_bytes(1048575), "1024.00 KB");
    assert_eq!(format_total_bytes(1048576), "1.00 MB");
    assert_eq!(format_total_bytes(5 * 1048576 + 262144), "5.25 MB");
    assert_eq!(format_total_bytes(1073741824), "1.00 GB");
    assert_eq!(format_total_bytes(u64::MAX), "17179869184.00 GB");
}

#[test]
fn ties_round_to_even() {
    // 1.125 KB is exactly halfway between 1.12 and 1.13.
    assert_eq!(format_total_bytes(1152), "1.12 KB");
    // 1.375 KB is exactly halfway between 1.37 and 1.38.
    assert_eq!(format_total_bytes(1408), "1.38 KB");
}

#[test]
fn matches_float_formatting_on_ranges() {
    for b in 0..300_000u64 {
        assert_eq!(format_total_bytes(b), float_reference(b), "bytes = {b}");
    }
    for k in 0..20_000u64 {
        let b = 1048576 * 900 + k * 37;
        assert_eq!(format_total_bytes(b), float_reference(b), "bytes = {b}");
        let g = 1073741824u64 * 3 + k * 100_003;
        assert_eq!(format_total_bytes(g), float_reference(g), "bytes = {g}");
    }
}

#[test]
fn matches_float_formatting_beyond_exact_integers() {
    let base: u64 = 1 << 53;
    for k in 0..5000u64 {
        let b = base + k;
        assert_eq!(format_total_bytes(b), float_reference(b), "bytes = {b}");
        let c = u64::MAX - k * 977;
        assert_eq!(format_total_bytes(c), float_reference(c), "bytes = {c}");
        let d = (1u64 << 62) + k * 1_234_567;
        assert_eq!(format_total_bytes(d), float_reference(d), "bytes = {d}");
    }
}

#[test]
fn optional_values() {
    assert_eq!(format_optional(&Some(1500u32)), "1500");
    assert_eq!(format_optional(&Some(String::from("aa:bb:cc:dd:ee:ff"))), "aa:bb:cc:dd:ee:ff");
    assert_eq!(format_optional::<u32>(&None), "-");
}
