use indexmap::IndexMap;
use ifstat_rs::{
    get_device_string_to_name_map, parse_positive_u64, rate, resolve_selection, shorten_name,
    split_interfaces, LoopState,
};

fn sample_snapshot() -> IndexMap<String, (u64, u64)> {
    let mut m = IndexMap::new();
    m.insert("lo".to_string(), (1u64, 2u64));
    m.insert("eth0".to_string(), (3u64, 4u64));
    m.insert("wlan0".to_string(), (5u64, 6u64));
    m.insert("lo0".to_string(), (7u64, 8u64));
    m
}

#[test]
fn shorten_name_rules() {
    // sixteen characters or fewer pass through unchanged
    assert_eq!(shorten_name("eth0"), "eth0");
    assert_eq!(shorten_name("exactly16chars__"), "exactly16chars__");

    // a native identifier collapses to marker prefix, two dots, last five
    let device = r"\DEVICE\TCPIP_{2EE2C70C-A092-4D88-A654-98C8D7645CD5}";
    assert_eq!(shorten_name(device), "TCPIP_{2EE2..5CD5}");
    assert_eq!(shorten_name(device).len(), 18);

    // a long name without the marker is cut to thirteen characters and dots
    assert_eq!(shorten_name("averylonginterface"), "averylonginte...");

    // a long name whose part after the backslash is short falls through
    // every abbreviation rule and stays whole
    assert_eq!(shorten_name("0123456789012\\abc"), "0123456789012\\abc");
}

#[test]
fn selection_policy() {
    let stats = sample_snapshot();

    // monitoring all takes every name in snapshot order
    let all = resolve_selection(&stats, true, None, false);
    assert_eq!(all, ["lo", "eth0", "wlan0", "lo0"]);

    // an explicit list wins, split on commas and trimmed, in given order
    let list = " eth9 ,lo,  nosuch ".to_string();
    let explicit = resolve_selection(&stats, false, Some(&list), false);
    assert_eq!(explicit, ["eth9", "lo", "nosuch"]);

    // the loopback flag currently behaves like monitoring all
    let loopback = resolve_selection(&stats, false, None, true);
    assert_eq!(loopback, ["lo", "eth0", "wlan0", "lo0"]);

    // the default drops every name starting with "lo", keeping order
    let default = resolve_selection(&stats, false, None, false);
    assert_eq!(default, ["eth0", "wlan0"]);
}

#[test]
fn split_interfaces_keeps_empty_entries() {
    assert_eq!(split_interfaces("eth0,lo"), ["eth0", "lo"]);
    assert_eq!(split_interfaces(""), [""]);
    assert_eq!(split_interfaces("a,,b"), ["a", "", "b"]);
    assert_eq!(split_interfaces(" a\t, b "), ["a", "b"]);
}

#[test]
fn rate_handles_resets_and_absence() {
    let mut previous = IndexMap::new();
    previous.insert("eth0".to_string(), (1000u64, 5000u64));
    let mut current = IndexMap::new();
    current.insert("eth0".to_string(), (2000u64, 4000u64));

    // rx grew by 1000 -> 0.98 KB; tx went backwards -> clamped to zero
    let r = rate(&previous, &current, &"eth0".to_string()).unwrap();
    assert_eq!(r, (98, 0));

    // an interface missing from either snapshot has no rate
    assert_eq!(rate(&previous, &current, &"lo".to_string()), None);
}

#[test]
fn rate_is_exact_for_monotonic_counters() {
    let mut previous = IndexMap::new();
    previous.insert("eth0".to_string(), (0u64, 0u64));
    let mut current = IndexMap::new();
    current.insert("eth0".to_string(), (1024u64, 10240u64));
    let r = rate(&previous, &current, &"eth0".to_string()).unwrap();
    assert_eq!(r, (100, 1000));
}

#[test]
fn parse_positive_u64_accepts_and_rejects() {
    assert_eq!(parse_positive_u64("5"), Ok(5));
    assert_eq!(parse_positive_u64("1"), Ok(1));
    assert_eq!(
        parse_positive_u64("0"),
        Err("`0` must be greater than 0".to_string())
    );
    assert_eq!(
        parse_positive_u64("-1"),
        Err("`-1` is not a valid number > 0".to_string())
    );
    assert_eq!(
        parse_positive_u64("ten"),
        Err("`ten` is not a valid number > 0".to_string())
    );
    assert_eq!(
        parse_positive_u64("18446744073709551616"),
        Err("`18446744073709551616` is not a valid number > 0".to_string())
    );
}

#[test]
fn loop_state_decisions() {
    let mut state = LoopState::new();
    assert!(!state.finished(None));
    assert!(!state.finished(Some(1)));
    assert!(!state.needs_header());

    state.record_row(false);
    assert_eq!(state.updates, 1);
    assert_eq!(state.rows_since_header, 1);
    assert!(state.finished(Some(1)));
    assert!(!state.finished(Some(2)));

    // a failed sample counts as a tick but prints no row
    state.record_error();
    assert_eq!(state.updates, 2);
    assert_eq!(state.rows_since_header, 1);

    // after twenty rows the header block is due again
    for _ in 0..19 {
        state.record_row(false);
    }
    assert_eq!(state.rows_since_header, 20);
    assert!(state.needs_header());
    state.record_row(true);
    assert_eq!(state.rows_since_header, 1);
    assert!(!state.needs_header());
}

#[test]
fn device_string_map_is_empty() {
    assert!(get_device_string_to_name_map().is_empty());
}
