use eat::cli::{parse_line_range, resolve_use_color_with_env, ColorMode, ListFormat, ListFormatArg, PagingMode, WrapMode};
use eat::duration::FollowDuration;
use std::time::Duration;

// --- line range ---

#[test]
fn line_range_single() {
    let r = parse_line_range("5").unwrap();
    assert_eq!(r.start, Some(5));
    assert_eq!(r.end, None);
}

#[test]
fn line_range_start_only() {
    let r = parse_line_range("5:").unwrap();
    assert_eq!(r.start, Some(5));
    assert_eq!(r.end, None);
}

#[test]
fn line_range_end_only() {
    let r = parse_line_range(":10").unwrap();
    assert_eq!(r.start, None);
    assert_eq!(r.end, Some(10));
}

#[test]
fn line_range_both() {
    let r = parse_line_range("5:10").unwrap();
    assert_eq!(r.start, Some(5));
    assert_eq!(r.end, Some(10));
}

#[test]
fn line_range_empty() {
    assert!(parse_line_range("").is_err());
}

#[test]
fn a_line_range_names_what_is_wrong_with_it() {
    assert_eq!(parse_line_range("").unwrap_err(), "empty line range");
    for s in ["x", "-1", "+", "5x:", "1:2:3", "12345678901234567890123", "9999999999999999999999x", "1 "] {
        let number = match s.split_once(':') {
            Some(("", r)) => r,
            Some((l, "")) => l,
            Some((l, r)) if l.parse::<usize>().is_ok() => r,
            Some((l, _)) => l,
            None => s,
        };
        let e = number.parse::<usize>().unwrap_err();
        assert_eq!(parse_line_range(s).unwrap_err(), format!("invalid line number: {e}"), "{s}");
    }
    let r = parse_line_range("+7:007").unwrap();
    assert_eq!((r.start, r.end), (Some(7), Some(7)));
    let r = parse_line_range(":").unwrap();
    assert_eq!((r.start, r.end), (None, None));
    let max = usize::MAX.to_string();
    assert_eq!(parse_line_range(&max).unwrap().start, Some(usize::MAX));
}

// --- modes ---

#[test]
fn color_mode_parsing() {
    assert_eq!(ColorMode::from_arg_value("auto").unwrap(), ColorMode::Auto);
    assert_eq!(ColorMode::from_arg_value("always").unwrap(), ColorMode::Always);
    assert_eq!(ColorMode::from_arg_value("never").unwrap(), ColorMode::Never);
}

#[test]
fn color_mode_invalid() {
    assert!(ColorMode::from_arg_value("nope").is_err());
}

#[test]
fn paging_mode_parsing() {
    assert_eq!(PagingMode::from_arg_value("auto").unwrap(), PagingMode::Auto);
    assert_eq!(PagingMode::from_arg_value("always").unwrap(), PagingMode::Always);
    assert_eq!(PagingMode::from_arg_value("never").unwrap(), PagingMode::Never);
}

#[test]
fn list_format_arg_parsing() {
    let parse = ListFormatArg::from_arg_value;
    assert_eq!(parse("pretty").unwrap().0, ListFormat::Pretty);
    assert_eq!(parse("plain").unwrap().0, ListFormat::Plain);
    assert_eq!(parse("json").unwrap().0, ListFormat::Json);
    assert!(parse("xml").is_err());
}

#[test]
fn a_bad_mode_is_named_in_the_error() {
    assert_eq!(ColorMode::from_arg_value("").unwrap_err(), "invalid color mode: . expected auto, always, or never");
    assert_eq!(PagingMode::from_arg_value("x").unwrap_err(), "invalid paging mode: x. expected auto, always, or never");
    assert_eq!(WrapMode::from_arg_value("Auto").unwrap_err(), "invalid wrap mode: Auto. expected auto, always, or never");
    assert_eq!(WrapMode::from_arg_value("never").unwrap(), WrapMode::Never);
    assert!(WrapMode::Auto.resolve() && WrapMode::Always.resolve() && !WrapMode::Never.resolve());
}

// --- colour ---

fn rc(mode: ColorMode, tty: bool, force: Option<&str>, no: Option<&str>) -> bool {
    resolve_use_color_with_env(mode, tty, force.map(str::as_bytes), no.map(str::as_bytes))
}

#[test]
fn cli_always_wins_over_everything() {
    assert!(rc(ColorMode::Always, false, None, Some("1")));
    assert!(rc(ColorMode::Always, false, Some("0"), Some("yes")));
}

#[test]
fn cli_never_wins_over_everything() {
    assert!(!rc(ColorMode::Never, true, Some("1"), None));
    assert!(!rc(ColorMode::Never, true, None, None));
}

#[test]
fn force_color_overrides_no_color_and_tty() {
    assert!(rc(ColorMode::Auto, false, Some("1"), Some("1")));
    assert!(rc(ColorMode::Auto, false, Some("3"), None));
    assert!(rc(ColorMode::Auto, false, Some("true"), None));
}

#[test]
fn force_color_zero_or_empty_does_not_force() {
    assert!(!rc(ColorMode::Auto, false, Some("0"), None));
    assert!(!rc(ColorMode::Auto, false, Some(""), None));
}

#[test]
fn no_color_disables_for_any_non_empty_value() {
    assert!(!rc(ColorMode::Auto, true, None, Some("1")));
    assert!(!rc(ColorMode::Auto, true, None, Some("yes")));
    assert!(!rc(ColorMode::Auto, true, None, Some("anything")));
}

#[test]
fn no_color_empty_does_not_disable() {
    // Only values that are not empty count.
    assert!(rc(ColorMode::Auto, true, None, Some("")));
}

#[test]
fn auto_falls_back_to_tty_when_env_silent() {
    assert!(rc(ColorMode::Auto, true, None, None));
    assert!(!rc(ColorMode::Auto, false, None, None));
}

// --- follow duration ---

#[test]
fn follow_duration_parsing() {
    let p = |s: &str| FollowDuration::parse(s).map(|d| Duration::from_millis(d.0));
    assert_eq!(p("250ms"), Ok(Duration::from_millis(250)));
    assert_eq!(p("2"), Ok(Duration::from_secs(2)));
    assert_eq!(p("2s"), Ok(Duration::from_secs(2)));
    assert_eq!(p("1.5s"), Ok(Duration::from_millis(1500)));
    assert_eq!(p("1m"), Ok(Duration::from_secs(60)));
    assert_eq!(p("30s"), Ok(Duration::from_secs(30)));
    // Shorter ones are raised to the least one.
    assert_eq!(p("10ms"), Ok(Duration::from_millis(FollowDuration::MIN)));
    assert_eq!(p("0.001s"), Ok(Duration::from_millis(FollowDuration::MIN)));
}

#[test]
fn follow_duration_rejections() {
    assert!(FollowDuration::parse("").is_err());
    assert!(FollowDuration::parse("abc").is_err());
    assert!(FollowDuration::parse("10x").is_err());
    assert!(FollowDuration::parse("-5s").is_err());
    assert!(FollowDuration::parse("0").is_err());
    assert!(FollowDuration::parse("0ms").is_err());
}

/// The same in the machine's floating point.
fn in_floating_point(value: &str) -> Result<u64, String> {
    let s = value.trim();
    if s.is_empty() {
        return Err("empty duration".to_string());
    }
    let split = s.find(|c: char| !(c.is_ascii_digit() || c == '.')).unwrap_or(s.len());
    let (number, unit) = s.split_at(split);
    let n: f64 = number.parse().map_err(|_| format!("invalid duration: {value}"))?;
    if !n.is_finite() {
        return Err(format!("invalid duration: {value}"));
    }
    let ms = match unit {
        "" | "s" => n * 1000.0,
        "ms" => n,
        "m" => n * 60_000.0,
        other => return Err(format!("invalid duration unit: '{other}' (expected ms, s, or m)")),
    };
    if ms <= 0.0 {
        return Err("duration must be positive".to_string());
    }
    Ok((ms.round() as u64).max(50))
}

#[test]
fn a_duration_is_what_floating_point_makes_of_it() {
    let mut values: Vec<String> = [
        "", " ", "1", " 1s ", ".", "..5", ".5", "5.", "1.5", "1.2.3s", "0.0005s", "0.0004999999999s", "50.5ms", "51.5ms",
        "0.0505s", "00012s", "1e3", "s", "ms", "1 s", "1h", "\u{85}2\u{2003}", "18446744073709551615ms",
        "18446744073709551616ms", "18446744073709549568ms", "184467440737095516.15s", "0.1s", "0.3m", "9007199254740993ms",
        "9007199254740992.5ms", "4503599627370497.5ms", "0.00000000000000000000000000000001", "2.5ms", "100.5ms", "101.5ms",
        "0.1005s", "0.1015s", "1.0005s", "1.0015s", "3.3333333333333333333333333m",
    ].iter().map(|s| s.to_string()).collect();
    values.push(format!("{}.0s", "9".repeat(308)));
    values.push(format!("{}s", "9".repeat(306)));
    values.push("9".repeat(310));
    values.push(format!("0.{}1m", "0".repeat(330)));
    values.push(format!("1{}ms", "0".repeat(308)));
    values.push(format!("17976931348623158{}ms", "0".repeat(292)));
    values.push(format!("17976931348623159{}ms", "0".repeat(292)));
    let mut seed: u64 = 1;
    for _ in 0..300 {
        seed = seed.wrapping_mul(6364136223846793005).wrapping_add(1442695040888963407);
        let a = seed >> 40;
        let b = (seed >> 8) % 1_000_000_007;
        let unit = ["", "s", "ms", "m"][(seed >> 5) as usize % 4];
        values.push(format!("{a}.{b}{unit}"));
    }
    for v in values {
        assert_eq!(FollowDuration::parse(&v).map(|d| d.0), in_floating_point(&v), "{v}");
    }
}
