use dumpy::query::parse_duration;
use dumpy::query::parse_timestamp;
use dumpy::retain::parse_size;
use dumpy::spool::parse_filename;

#[test]
fn test_parse_filename_with_thread() {
    let filename = "log.pcap.1.1649915733";
    let r = parse_filename(filename).unwrap();
    assert_eq!(r, (1, 1649915733));

    let filename = "log.pcap.11.1649915733";
    let r = parse_filename(filename).unwrap();
    assert_eq!(r, (11, 1649915733));

    let filename = "log.pcap.111.1649915733";
    let r = parse_filename(filename).unwrap();
    assert_eq!(r, (111, 1649915733));
}

#[test]
fn test_parse_filename_without_thread() {
    let filename = "log.pcap.1649915733";
    let r = parse_filename(filename).unwrap();
    assert_eq!(r, (0, 1649915733));
}

#[test]
fn test_parse_filename_rejects() {
    assert_eq!(parse_filename("nodigits"), None);
    assert_eq!(parse_filename(""), None);
    assert_eq!(parse_filename("log.pcap"), None);
    // an oversized group counts as zero and lands in the producer slot
    let r = parse_filename("log.pcap.99999999999999999999999999999.5").unwrap();
    assert_eq!(r, (0, 5));
}

#[test]
fn test_parse_duration() {
    let duration = parse_duration("1s").unwrap();
    assert_eq!(duration, 1);

    let duration = parse_duration("1m").unwrap();
    assert_eq!(duration, 60);

    let duration = parse_duration("1h").unwrap();
    assert_eq!(duration, 3600);

    assert!(parse_duration("1").is_none());
    assert!(parse_duration("1z").is_none());
    assert!(parse_duration("am").is_none());
    assert!(parse_duration("99999999999999999999999999999m").is_none());
}

#[test]
fn test_parse_duration_overflow_unit() {
    // the count parses but the unit multiplication would overflow
    assert!(parse_duration("9223372036854775807s").is_some());
    assert!(parse_duration("9223372036854775807m").is_none());
    assert!(parse_duration("9223372036854775807h").is_none());
}

#[test]
fn test_parse_timestamp() {
    let eve_format = "2022-04-12T17:20:42.294911-0600";
    parse_timestamp(eve_format).unwrap();

    let eve_format = "2022-04-12T17:20:42.294911-06:00";
    parse_timestamp(eve_format).unwrap();
}

#[test]
fn test_parse_timestamp_values() {
    // both offset spellings must name the same instant
    let a = parse_timestamp("2022-04-12T17:20:42.294911-0600").unwrap();
    let b = parse_timestamp("2022-04-12T17:20:42.294911-06:00").unwrap();
    assert_eq!(a.secs, b.secs);
    assert_eq!(a.nanos, b.nanos);
    // a known instant: 2022-01-01T00:00:00Z
    let t = parse_timestamp("2022-01-01T00:00:00Z").unwrap();
    assert_eq!(t.secs, 1640995200);
    assert_eq!(t.nanos, 0);
    assert!(parse_timestamp("not a time").is_none());
}

#[test]
fn test_parse_size() {
    assert_eq!(parse_size("1024").unwrap(), 1024);
    assert_eq!(parse_size("1K").unwrap(), 1024);
    assert_eq!(parse_size("1M").unwrap(), 1024 * 1024);
    assert_eq!(parse_size("1G").unwrap(), 1024 * 1024 * 1024);
    assert_eq!(parse_size("1.5G").unwrap(), 1610612736);
}

#[test]
fn test_parse_size_forms() {
    assert_eq!(parse_size(" 10m "), Some(10 * 1024 * 1024));
    assert_eq!(parse_size("0.5K"), Some(512));
    assert_eq!(parse_size(".5K"), Some(512));
    assert_eq!(parse_size("2.k"), Some(2048));
    assert_eq!(parse_size(""), None);
    assert_eq!(parse_size("G"), None);
    assert_eq!(parse_size(".G"), None);
    assert_eq!(parse_size("1.5"), None);
    assert_eq!(parse_size("12x"), None);
    assert_eq!(parse_size("1.2.3G"), None);
    assert_eq!(parse_size("18446744073709551615"), Some(u64::MAX));
    assert_eq!(parse_size("18446744073709551616"), None);
    // a suffixed value beyond the range saturates, as a float cast would
    assert_eq!(parse_size("99999999999999999999G"), Some(u64::MAX));
}
