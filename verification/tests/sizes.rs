use eat::size::human_size;

#[test]
fn sizes_are_decimal_and_short() {
    assert_eq!(human_size(0), "0");
    assert_eq!(human_size(999), "999");
    assert_eq!(human_size(1000), "1.0k");
    assert_eq!(human_size(1234), "1.2k");
    assert_eq!(human_size(12_345), "12k");
    assert_eq!(human_size(3_400_000), "3.4M");
    assert_eq!(human_size(9_949), "9.9k");
    assert_eq!(human_size(9_960), "10k");
    assert_eq!(human_size(999_499), "999k");
    assert_eq!(human_size(999_500), "1.0M");
    assert_eq!(human_size(999_999_999), "1.0G");
    assert_eq!(human_size(u64::MAX), "18E");
}

#[test]
fn a_size_never_outgrows_its_column() {
    let mut n = 1u64;
    while n < u64::MAX / 3 {
        for probe in [n - 1, n, n + n / 2, n * 3 - 1] {
            assert!(human_size(probe).len() <= 4, "{probe} -> {}", human_size(probe));
        }
        n *= 10;
    }
}

/// The same in the machine's floating point.
fn in_floating_point(bytes: u64) -> String {
    if bytes < 1000 {
        return bytes.to_string();
    }
    let mut value = bytes as f64;
    for unit in ["k", "M", "G", "T", "P", "E"] {
        value /= 1000.0;
        if value < 9.95 {
            return format!("{value:.1}{unit}");
        }
        if value < 999.5 {
            return format!("{value:.0}{unit}");
        }
    }
    unreachable!()
}

#[test]
fn a_size_is_what_floating_point_makes_of_it() {
    let mut values: Vec<u64> = vec![1000, 1049, 1050, 1051, 1150, 9949, 9950, 9951, 10499, 10500, 11500, 12500, 999499, 999500];
    let mut n = 1u64;
    while n < u64::MAX / 20 {
        for d in 0..40 {
            values.push(n * 10 - 20 + d);
            values.push((n * 995 / 100).wrapping_sub(20) + d);
            values.push((n.saturating_mul(9995) / 1000).wrapping_sub(20) + d);
        }
        n *= 10;
    }
    let mut seed: u64 = 7;
    for _ in 0..3000 {
        seed = seed.wrapping_mul(6364136223846793005).wrapping_add(1442695040888963407);
        values.push(seed >> (seed % 60));
    }
    for v in values {
        assert_eq!(human_size(v), in_floating_point(v), "{v}");
    }
}
