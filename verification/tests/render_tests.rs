use indexmap::IndexMap;
use ifstat_rs::{parse_net_dev_stats, print_headers, print_stats};

fn mock_net_dev_data() -> String {
    "\
Inter-|   Receive                                                |  Transmit
 face |bytes    packets errs drop fifo frame compressed multicast|bytes    packets errs drop fifo colls carrier compressed
    lo: 11738832  105207    0    0    0     0          0         0 11738832  105207    0    0    0     0       0          0
  eth0: 995608711  460367    0    0    0     0          0         0 32726793  311286    0    0    0     0       0          0
".to_string()
}

#[test]
fn integration_tests_test_print_headers() {
    let interfaces = vec!["lo".to_string(), "eth0".to_string()];
    let expected = "\
________lo_________________eth0_______
_KB/s_in__KB/s_out___KB/s_in__KB/s_out
";
    let mut output = String::new();
    let stats = parse_net_dev_stats(&mock_net_dev_data()).unwrap();
    print_headers(&interfaces, &mut output, false, &stats);
    let output_str = output.replace(' ', "_");
    assert_eq!(output_str, expected);
}

#[test]
fn integration_tests_test_print_stats() {
    let previous_stats = parse_net_dev_stats(&mock_net_dev_data()).unwrap();
    let current_stats = parse_net_dev_stats(&mock_net_dev_data()).unwrap();
    let interfaces = vec!["lo".to_string(), "eth0".to_string()];
    let expected = "\
____0.00______0.00______0.00______0.00
";
    let mut output = String::new();
    print_stats(&previous_stats, &current_stats, &interfaces, &mut output, false);
    let output_str = output.replace(' ', "_");
    assert_eq!(output_str, expected);
}

#[test]
fn test_print_stats_difference() {
    let previous_stats = parse_net_dev_stats(&mock_net_dev_data()).unwrap();
    let new_mock_data = "\
Inter-|   Receive                                                |  Transmit
 face |bytes    packets errs drop fifo frame compressed multicast|bytes    packets errs drop fifo colls carrier compressed
    lo: 11738833  105208    0    0    0     0          0         0 11738834  105208    0    0    0     0       0          0
  eth0: 995708711  460467    0    0    0     0          0         0 32736793  311386    0    0    0     0       0          0
".to_string();

    let new_stats = parse_net_dev_stats(&new_mock_data).unwrap();

    let interfaces = vec!["lo".to_string(), "eth0".to_string()];
    let expected = "\
____0.00______0.00_____97.66______9.77
";
    let mut output = String::new();
    print_stats(&previous_stats, &new_stats, &interfaces, &mut output, false);
    let output_str = output.replace(' ', "_");
    assert_eq!(output_str, expected);
}

#[test]
fn print_headers_tests_test_print_headers() {
    let stats = IndexMap::new();
    let interfaces = vec!["eth0".to_string(), "lo".to_string()];
    let mut output = String::new();
    print_headers(&interfaces, &mut output, false, &stats);
    let output_str = output;

    assert!(output_str.contains("eth0"));
    assert!(output_str.contains("lo"));
}

#[test]
fn print_stats_tests_test_print_stats() {
    let previous = vec![
        ("eth0".to_string(), (1000, 2000)),
        ("lo".to_string(), (1000, 2000)),
    ]
    .into_iter()
    .collect::<IndexMap<_, _>>();
    let current = vec![
        ("eth0".to_string(), (2000, 3000)),
        ("lo".to_string(), (2000, 3000)),
    ]
    .into_iter()
    .collect::<IndexMap<_, _>>();
    let interfaces = vec!["eth0".to_string(), "lo".to_string()];
    let mut output = String::new();
    print_stats(&previous, &current, &interfaces, &mut output, false);
    let output_str = output;

    let lines: Vec<&str> = output_str.trim().split('\n').collect();

    // We expect one line of output for the two interfaces
    assert_eq!(lines.len(), 1);

    let eth0_lo_output = lines[0];
    let eth0_lo_values: Vec<&str> = eth0_lo_output.split_whitespace().collect();

    // We expect four values (two for each interface: "KB/s in" and "KB/s out")
    assert_eq!(eth0_lo_values.len(), 4);

    let eth0_in: f64 = eth0_lo_values[0].parse().unwrap();
    let eth0_out: f64 = eth0_lo_values[1].parse().unwrap();
    let lo_in: f64 = eth0_lo_values[2].parse().unwrap();
    let lo_out: f64 = eth0_lo_values[3].parse().unwrap();

    let tolerance = 0.01;

    // Calculate the expected values rounded to 2 decimal places
    let expected_eth0_in = (1000.0f64 / 1024.0 * 100.0).round() / 100.0;
    let expected_eth0_out = (1000.0f64 / 1024.0 * 100.0).round() / 100.0;
    let expected_lo_in = (1000.0f64 / 1024.0 * 100.0).round() / 100.0;
    let expected_lo_out = (1000.0f64 / 1024.0 * 100.0).round() / 100.0;

    // Debug output to see the values
    println!("eth0_in: {}, expected: {}", eth0_in, expected_eth0_in);
    println!("eth0_out: {}, expected: {}", eth0_out, expected_eth0_out);
    println!("lo_in: {}, expected: {}", lo_in, expected_lo_in);
    println!("lo_out: {}, expected: {}", lo_out, expected_lo_out);

    // Validate the values with a tolerance
    assert!((eth0_in - expected_eth0_in).abs() < tolerance);
    assert!((eth0_out - expected_eth0_out).abs() < tolerance);
    assert!((lo_in - expected_lo_in).abs() < tolerance);
    assert!((lo_out - expected_lo_out).abs() < tolerance);
}

#[test]
fn zero_filtering_hides_and_disabling_shows() {
    let mut stats = IndexMap::new();
    stats.insert("idle0".to_string(), (0u64, 0u64));
    stats.insert("eth0".to_string(), (10u64, 20u64));
    let interfaces = vec!["idle0".to_string(), "eth0".to_string()];

    // Hidden: the all-zero interface appears in neither header nor row.
    let mut header = String::new();
    print_headers(&interfaces, &mut header, true, &stats);
    assert!(!header.contains("idle0"));
    assert!(header.contains("eth0"));

    let mut row = String::new();
    print_stats(&stats, &stats, &interfaces, &mut row, true);
    assert_eq!(row, "    0.00      0.00\n");

    // Shown: with filtering disabled both always appear.
    let mut header = String::new();
    print_headers(&interfaces, &mut header, false, &stats);
    assert!(header.contains("idle0"));
    assert!(header.contains("eth0"));

    let mut row = String::new();
    print_stats(&stats, &stats, &interfaces, &mut row, false);
    assert_eq!(row, "    0.00      0.00      0.00      0.00\n");
}

#[test]
fn zero_filtered_header_can_be_empty() {
    let mut stats = IndexMap::new();
    stats.insert("idle0".to_string(), (0u64, 0u64));
    let interfaces = vec!["idle0".to_string()];
    let mut header = String::new();
    print_headers(&interfaces, &mut header, true, &stats);
    assert_eq!(header, "");
    // the data row still ends with its newline even when empty
    let mut row = String::new();
    print_stats(&stats, &stats, &interfaces, &mut row, true);
    assert_eq!(row, "\n");
}

#[test]
fn missing_interface_leaves_no_cell() {
    let mut previous = IndexMap::new();
    previous.insert("a0".to_string(), (0u64, 0u64));
    previous.insert("b0".to_string(), (0u64, 0u64));
    let mut current = IndexMap::new();
    current.insert("a0".to_string(), (1024u64, 0u64));
    let interfaces = vec!["a0".to_string(), "b0".to_string()];
    let mut row = String::new();
    print_stats(&previous, &current, &interfaces, &mut row, false);
    // the interface absent from the current snapshot produces no cell, but
    // the separator after the preceding cell was already written
    assert_eq!(row, "    1.00      0.00  \n");
}

#[test]
fn largest_possible_delta_renders_exactly() {
    let mut previous = IndexMap::new();
    previous.insert("big0".to_string(), (0u64, 0u64));
    let mut current = IndexMap::new();
    current.insert("big0".to_string(), (u64::MAX, 0u64));
    let interfaces = vec!["big0".to_string()];
    let mut row = String::new();
    print_stats(&previous, &current, &interfaces, &mut row, false);
    // (2^64 - 1) / 1024, rounded to two decimals, wider than its column
    assert_eq!(row, "18014398509481984.00      0.00\n");
}

#[test]
fn long_device_names_are_shortened_in_headers() {
    let device = r"\DEVICE\TCPIP_{2EE2C70C-A092-4D88-A654-98C8D7645CD5}".to_string();
    let mut stats = IndexMap::new();
    stats.insert(device.clone(), (1u64, 1u64));
    let interfaces = vec![device];
    let mut header = String::new();
    print_headers(&interfaces, &mut header, false, &stats);
    // the 18-character abbreviation exactly fills its column
    assert_eq!(header, "TCPIP_{2EE2..5CD5}\n KB/s in  KB/s out\n");
}

#[test]
fn rate_rounding_ties_go_to_even() {
    let mut previous = IndexMap::new();
    previous.insert("t0".to_string(), (0u64, 0u64));
    let mut current = IndexMap::new();
    // 128/1024 = 0.125 rounds down to the even 0.12;
    // 384/1024 = 0.375 rounds up to the even 0.38
    current.insert("t0".to_string(), (128u64, 384u64));
    let interfaces = vec!["t0".to_string()];
    let mut row = String::new();
    print_stats(&previous, &current, &interfaces, &mut row, false);
    assert_eq!(row, "    0.12      0.38\n");
}
