use rsync_tui::progress::parse_progress;

#[test]
fn test_parse_typical_progress_line() {
    let r = parse_progress("   1,234,567  45%   12.34MB/s    0:01:23").unwrap();
    assert_eq!(r.percentage, "45");
    assert_eq!(r.percentage.parse::<f64>().unwrap(), 45.0);
    assert_eq!(r.info, "12.34MB/s 0:01:23");
}

#[test]
fn test_parse_clamps_above_one_hundred() {
    let r = parse_progress("      999  150%   1.00MB/s    0:00:01").unwrap();
    assert_eq!(r.percentage, "100");
    assert_eq!(r.percentage.parse::<f64>().unwrap(), 100.0);
}

#[test]
fn test_parse_no_percent_token() {
    assert!(parse_progress("sending incremental file list").is_none());
    assert!(parse_progress("").is_none());
}

#[test]
fn test_parse_percent_needs_numeral_prefix() {
    // a token ending in % whose prefix is not a numeral is no marker
    assert!(parse_progress("abc%  junk").is_none());
    // the scan keeps looking past such a token
    let r = parse_progress("abc% 45% 9.9MB/s").unwrap();
    assert_eq!(r.percentage, "45");
    assert_eq!(r.info, "9.9MB/s");
}

#[test]
fn test_parse_first_marker_wins() {
    let r = parse_progress("10% then 90%").unwrap();
    assert_eq!(r.percentage, "10");
    assert_eq!(r.info, "then 90%");
}

#[test]
fn test_parse_info_shorter_than_two_tokens() {
    let r = parse_progress("45%").unwrap();
    assert_eq!(r.percentage, "45");
    assert_eq!(r.info, "");

    let r = parse_progress("45% 1.2MB/s").unwrap();
    assert_eq!(r.info, "1.2MB/s");
}

#[test]
fn test_parse_fractional_percent_kept() {
    let r = parse_progress("  99.5%  2.0MB/s  0:00:09").unwrap();
    assert_eq!(r.percentage.parse::<f64>().unwrap(), 99.5);
}

#[test]
fn test_parse_exact_one_hundred_not_clamped_form() {
    let r = parse_progress(" 100%  done").unwrap();
    assert_eq!(r.percentage.parse::<f64>().unwrap(), 100.0);
    let r = parse_progress(" 100.2%  over").unwrap();
    assert_eq!(r.percentage, "100");
}

#[test]
fn test_parse_negative_percent_not_raised() {
    // clamping has a ceiling, never a floor
    let r = parse_progress(" -5%  odd").unwrap();
    assert_eq!(r.percentage.parse::<f64>().unwrap(), -5.0);
}

#[test]
fn test_parse_huge_percent_clamped() {
    let r = parse_progress(" 0123456%  x y z").unwrap();
    assert_eq!(r.percentage, "100");
    assert_eq!(r.info, "x y");
}

#[test]
fn test_parse_exponent_forms() {
    // exponent forms are markers, compared by their value
    let r = parse_progress("1e5%  fast").unwrap();
    assert_eq!(r.percentage, "100");

    let r = parse_progress("2e1%  slow").unwrap();
    assert_eq!(r.percentage, "2e1");
    assert_eq!(r.percentage.parse::<f64>().unwrap(), 20.0);

    let r = parse_progress("1.5E2%").unwrap();
    assert_eq!(r.percentage, "100");

    let r = parse_progress("5e-1%").unwrap();
    assert_eq!(r.percentage.parse::<f64>().unwrap(), 0.5);

    let r = parse_progress("1e+2%").unwrap();
    assert_eq!(r.percentage, "1e+2");
    assert_eq!(r.percentage.parse::<f64>().unwrap(), 100.0);

    // a bare or malformed exponent is no marker
    assert!(parse_progress("1e%").is_none());
    assert!(parse_progress("e5%").is_none());
    assert!(parse_progress("1e5.2%").is_none());
}

#[test]
fn test_parse_infinity_and_nan_words() {
    let r = parse_progress("inf%  over").unwrap();
    assert_eq!(r.percentage, "100");

    let r = parse_progress("Infinity%").unwrap();
    assert_eq!(r.percentage, "100");

    // the minimum of not-a-number and one hundred is one hundred
    let r = parse_progress("NaN%").unwrap();
    assert_eq!(r.percentage, "100");
    let r = parse_progress("-nan%").unwrap();
    assert_eq!(r.percentage, "100");

    // negative infinity is below the ceiling and passes through
    let r = parse_progress("-inf%").unwrap();
    assert_eq!(r.percentage, "-inf");
    assert_eq!(r.percentage.parse::<f64>().unwrap(), f64::NEG_INFINITY);

    // the first qualifying token wins, as with plain numerals
    let r = parse_progress("inf% 45%").unwrap();
    assert_eq!(r.percentage, "100");
    assert_eq!(r.info, "45%");

    // the words alone, without the marker, are no signal
    assert!(parse_progress("inf nan").is_none());
    // and other words are no markers
    assert!(parse_progress("infx%").is_none());
}

#[test]
fn test_parse_huge_exponents() {
    let r = parse_progress("1e999999999999999999999%").unwrap();
    assert_eq!(r.percentage, "100");

    let r = parse_progress("9e-999999999999999999999%").unwrap();
    assert_eq!(r.percentage, "9e-999999999999999999999");

    let r = parse_progress("0e999999999999999999999%").unwrap();
    assert_eq!(r.percentage, "0e999999999999999999999");
    assert_eq!(r.percentage.parse::<f64>().unwrap(), 0.0);
}
