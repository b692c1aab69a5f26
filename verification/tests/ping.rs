use netburn::ping::{default_targets, parse_default_gateway, parse_ping, ping_args, ping_result};

#[test]
fn parses_macos_ping() {
    let output = "--- 1.1.1.1 ping statistics ---\n20 packets transmitted, 20 packets received, 0.0% packet loss\nround-trip min/avg/max/stddev = 8.123/10.500/20.000/2.100 ms";
    let p = parse_ping("1.1.1.1", output);
    assert_eq!(p.transmitted, 20);
    assert_eq!(p.received, 20);
    assert_eq!(p.loss_percent.parse::<f64>().unwrap(), 0.0);
    assert_eq!(p.avg_ms.as_deref().map(|s| s.parse::<f64>().unwrap()), Some(10.5));
}

#[test]
fn parses_gateway_from_route() {
    let output = "   route to: default\ndestination: default\n    gateway: 192.168.1.1\n  interface: en0\n";
    let gw = parse_default_gateway(output);
    assert_eq!(gw.as_deref(), Some("192.168.1.1"));
}

#[test]
fn gateway_absent_when_no_gateway_line() {
    let output = "   route to: default\ndestination: default\n  interface: en0\n";
    assert_eq!(parse_default_gateway(output), None);
}

#[test]
fn parses_linux_ping_with_all_figures() {
    let output = "PING 1.1.1.1 (1.1.1.1) 56(84) bytes of data.\n\n--- 1.1.1.1 ping statistics ---\n3 packets transmitted, 2 received, 33.3333% packet loss, time 2003ms\nrtt min/avg/max/mdev = 9.111/9.555/10.000/0.444 ms\n";
    let p = parse_ping("1.1.1.1", output);
    assert_eq!(p.transmitted, 3);
    // Linux writes "2 received" without "packets", so no count is read for it.
    assert_eq!(p.received, 0);
    assert_eq!(p.loss_percent, "33.3333");
    assert_eq!(p.min_ms.as_deref(), Some("9.111"));
    assert_eq!(p.avg_ms.as_deref(), Some("9.555"));
    assert_eq!(p.max_ms.as_deref(), Some("10.000"));
    assert_eq!(p.stddev_ms.as_deref(), Some("0.444"));
    assert_eq!(p.error, None);
}

#[test]
fn unreadable_output_keeps_defaults() {
    let p = parse_ping("host", "ping: cannot resolve host: Unknown host");
    assert_eq!(p.target, "host");
    assert_eq!(p.transmitted, 0);
    assert_eq!(p.received, 0);
    assert_eq!(p.loss_percent, "100");
    assert_eq!(p.min_ms, None);
    assert_eq!(p.avg_ms, None);
    assert_eq!(p.max_ms, None);
    assert_eq!(p.stddev_ms, None);
}

#[test]
fn round_trip_figures_need_all_four_numbers() {
    let output = "round-trip min/avg/max/stddev = 8.1/nope/20.0/2.1 ms";
    let p = parse_ping("x", output);
    assert_eq!(p.min_ms, None);
    assert_eq!(p.avg_ms, None);
    let output = "round-trip min/avg/max/stddev = 1e1/+2.5/inf/.5 ms";
    let p = parse_ping("x", output);
    assert_eq!(p.min_ms.as_deref(), Some("1e1"));
    assert_eq!(p.avg_ms.as_deref(), Some("+2.5"));
    assert_eq!(p.max_ms.as_deref(), Some("inf"));
    assert_eq!(p.stddev_ms.as_deref(), Some(".5"));
}

#[test]
fn unreadable_loss_counts_as_total_loss() {
    let output = "5 packets transmitted, 5 packets received, lots% packet loss";
    let p = parse_ping("x", output);
    assert_eq!(p.transmitted, 5);
    assert_eq!(p.received, 5);
    assert_eq!(p.loss_percent, "100");
}

#[test]
fn failed_ping_keeps_last_line_as_error() {
    let output = "PING 10.0.0.9: 56 data bytes\n\n--- 10.0.0.9 ping statistics ---\n2 packets transmitted, 0 packets received, 100.0% packet loss\n";
    let r = ping_result("10.0.0.9", output, false);
    assert_eq!(r.received, 0);
    assert_eq!(
        r.error.as_deref(),
        Some("2 packets transmitted, 0 packets received, 100.0% packet loss")
    );
    let r = ping_result("10.0.0.9", "", false);
    assert_eq!(r.error.as_deref(), Some("ping failed"));
    let r = ping_result("10.0.0.9", output, true);
    assert_eq!(r.error, None);
}

#[test]
fn failed_ping_with_replies_has_no_error() {
    let output = "2 packets transmitted, 1 packets received, 50.0% packet loss\n";
    let r = ping_result("h", output, false);
    assert_eq!(r.received, 1);
    assert_eq!(r.error, None);
}

#[test]
fn crlf_lines_are_read() {
    let output = "4 packets transmitted, 4 packets received, 0.0% packet loss\r\nround-trip min/avg/max/stddev = 1.0/2.0/3.0/0.5 ms\r\n";
    let p = parse_ping("h", output);
    assert_eq!(p.received, 4);
    assert_eq!(p.stddev_ms.as_deref(), Some("0.5"));
}

#[test]
fn targets_start_with_gateway() {
    assert_eq!(
        default_targets(Some("192.168.1.1".to_string())),
        vec!["192.168.1.1", "1.1.1.1", "teams.microsoft.com"]
    );
    assert_eq!(default_targets(None), vec!["1.1.1.1", "teams.microsoft.com"]);
}

#[test]
fn ping_arguments() {
    assert_eq!(ping_args("1.1.1.1", 20), vec!["-c", "20", "-i", "0.2", "1.1.1.1"]);
}
