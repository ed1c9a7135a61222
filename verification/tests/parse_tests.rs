use ifstat_rs::{parse_net_dev_stats, ParseError};

fn mock_net_dev_data() -> String {
    "\
Inter-|   Receive                                                |  Transmit
 face |bytes    packets errs drop fifo frame compressed multicast|bytes    packets errs drop fifo colls carrier compressed
    lo: 11738832  105207    0    0    0     0          0         0 11738832  105207    0    0    0     0       0          0
  eth0: 995608711  460367    0    0    0     0          0         0 32726793  311286    0    0    0     0       0          0
".to_string()
}

#[test]
fn edge_cases_tests_test_edge_cases() {
    let data = r#"
Inter-|   Receive                                                |  Transmit
 face |bytes    packets errs drop fifo frame compressed multicast|bytes    packets errs drop fifo colls carrier compressed
  eth0:  invalid_data
"#;
    let result = parse_net_dev_stats(data);

    assert!(result.is_err());
}

#[test]
fn integration_tests_test_edge_cases() {
    // No counter data at all (simulate by using empty data)
    let result = parse_net_dev_stats("");
    assert!(
        result.unwrap().is_empty(),
        "Expected empty stats for empty /proc/net/dev"
    );

    // No network interfaces
    let no_interfaces_data = "\
Inter-|   Receive                                                |  Transmit
 face |bytes    packets errs drop fifo frame compressed multicast|bytes    packets errs drop fifo colls carrier compressed
";
    let result = parse_net_dev_stats(no_interfaces_data);
    assert!(
        result.unwrap().is_empty(),
        "Expected empty stats for no network interfaces"
    );

    // Corrupt counter data
    let corrupt_data = "\
Inter-|   Receive                                                |  Transmit
 face |bytes    packets errs drop fifo frame compressed multicast|bytes    packets errs drop fifo colls carrier compressed
    lo: xxxxxxxx  xxxxxx    0    0    0     0          0         0 xxxxxxxx  xxxxxx    0    0    0     0       0          0
  eth0: xxxxxxxx  xxxxxx    0    0    0     0          0         0 xxxxxxxx  xxxxxx    0    0    0     0       0          0
";
    let result = parse_net_dev_stats(corrupt_data);
    assert!(result.is_err(), "Expected error for corrupt /proc/net/dev data");

    // Letters instead of numbers
    let letters_data = "\
Inter-|   Receive                                                |  Transmit
 face |bytes    packets errs drop fifo frame compressed multicast|bytes    packets errs drop fifo colls carrier compressed
    lo: abcdefgh  abcdef    0    0    0     0          0         0 abcdefgh  abcdef    0    0    0     0       0          0
  eth0: abcdefgh  abcdef    0    0    0     0          0         0 abcdefgh  abcdef    0    0    0     0       0          0
";
    let result = parse_net_dev_stats(letters_data);
    assert!(
        result.is_err(),
        "Expected error for /proc/net/dev with letters instead of numbers"
    );

    // Header lines only
    let empty_data = "\
Inter-|   Receive                                                |  Transmit
 face |bytes    packets errs drop fifo frame compressed multicast|bytes    packets errs drop fifo colls carrier compressed
";
    let result = parse_net_dev_stats(empty_data);
    assert!(
        result.unwrap().is_empty(),
        "Expected empty stats for empty /proc/net/dev"
    );
}

#[test]
fn integration_tests_test_parse_net_dev_stats() {
    let stats = parse_net_dev_stats(&mock_net_dev_data()).unwrap();
    assert_eq!(stats["lo"], (11738832, 11738832));
    assert_eq!(stats["eth0"], (995608711, 32726793));
}

#[test]
fn parse_net_dev_stats_tests_test_parse_net_dev_stats() {
    let data = r#"Inter-|   Receive                                                |  Transmit
 face |bytes    packets errs drop fifo frame compressed multicast|bytes    packets errs drop fifo colls carrier compressed
   lo:  104013    1264    0    0    0     0          0         0   204386    1571    0    0    0     0       0          0
 eth0:  104013    1264    0    0    0     0          0         0   204386    1571    0    0    0     0       0          0
"#;
    let stats = parse_net_dev_stats(data).unwrap();

    assert_eq!(stats.len(), 2);
    assert_eq!(stats["eth0"], (104013, 204386));
    assert_eq!(stats["lo"], (104013, 204386));
}

#[test]
fn parse_error_variants() {
    let header = "\
Inter-|   Receive                                                |  Transmit
 face |bytes    packets errs drop fifo frame compressed multicast|bytes    packets errs drop fifo colls carrier compressed
";

    // A line without a colon
    let data = format!("{}no colon here\n", header);
    assert_eq!(parse_net_dev_stats(&data), Err(ParseError::NoColon));

    // Too few fields after the colon
    let data = format!("{}  eth0: 1 2 3\n", header);
    assert_eq!(parse_net_dev_stats(&data), Err(ParseError::BadFieldCount(3)));

    // A non-numeric receive counter
    let data = format!("{}  eth0: x 2 3 4 5 6 7 8 9\n", header);
    assert_eq!(parse_net_dev_stats(&data), Err(ParseError::InvalidRx));

    // A non-numeric transmit counter
    let data = format!("{}  eth0: 1 2 3 4 5 6 7 8 x\n", header);
    assert_eq!(parse_net_dev_stats(&data), Err(ParseError::InvalidTx));

    // A receive counter too large for 64 bits
    let data = format!("{}  eth0: 18446744073709551616 2 3 4 5 6 7 8 9\n", header);
    assert_eq!(parse_net_dev_stats(&data), Err(ParseError::InvalidRx));

    // The largest representable counter still parses
    let data = format!("{}  eth0: 18446744073709551615 2 3 4 5 6 7 8 9\n", header);
    let stats = parse_net_dev_stats(&data).unwrap();
    assert_eq!(stats["eth0"], (u64::MAX, 9));

    // A plus-signed counter parses like the standard library's u64 parser
    let data = format!("{}  eth0: +7 2 3 4 5 6 7 8 9\n", header);
    let stats = parse_net_dev_stats(&data).unwrap();
    assert_eq!(stats["eth0"], (7, 9));
}

#[test]
fn parse_error_messages() {
    assert_eq!(
        ParseError::NoColon.message(),
        "Invalid line format (no colon found)"
    );
    assert_eq!(ParseError::BadFieldCount(3).message(), "Invalid line format: 3 fields");
    assert_eq!(ParseError::InvalidRx.message(), "Invalid RX bytes");
    assert_eq!(ParseError::InvalidTx.message(), "Invalid TX bytes");
}

#[test]
fn parse_preserves_order_and_merges_duplicates() {
    let data = "\
h1
h2
  b: 1 0 0 0 0 0 0 0 2
  a: 3 0 0 0 0 0 0 0 4
  c: 5 0 0 0 0 0 0 0 6
  a: 7 0 0 0 0 0 0 0 8
";
    let stats = parse_net_dev_stats(data).unwrap();
    let names: Vec<&String> = stats.keys().collect();
    assert_eq!(names, ["b", "a", "c"]);
    // a repeated interface keeps its place and takes the later counters
    assert_eq!(stats["a"], (7, 8));
    assert_eq!(stats.len(), 3);
}
