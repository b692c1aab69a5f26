use netburn::report::{
    badge, esc, render_report, script_safe_json, PingRow, Report, Status, TcpRow, UdpRow,
};

fn sample_json() -> String {
    let mut stress = serde_json::Map::new();
    stress.insert("idle_ms".into(), serde_json::Value::from(10.0));
    stress.insert("loaded_ms".into(), serde_json::Value::from(12.0));
    stress.insert("delta_ms".into(), serde_json::Value::from(2.0));
    stress.insert("grade".into(), serde_json::Value::from("A"));
    stress.insert("error".into(), serde_json::Value::Null);
    let mut data = serde_json::Map::new();
    data.insert("stress".into(), serde_json::Value::Object(stress));
    serde_json::to_string_pretty(&serde_json::Value::Object(data)).unwrap()
}

fn sample_report() -> Report {
    Report {
        ping: vec![PingRow {
            target: "1.1.1.1".into(),
            average: "10.00".into(),
            jitter: "2.00".into(),
            loss: "0.00".into(),
            loss_status: Status::Pass,
            jitter_status: Status::Pass,
        }],
        tcp: vec![],
        udp: vec![],
        endpoint_source: "test".into(),
        note: "test note".into(),
        download: "50.00".into(),
        upload: "25.00".into(),
        bandwidth_ok: true,
        idle: "10.00".into(),
        loaded: "12.00".into(),
        delta: "2.00".into(),
        grade: "A".into(),
        json: sample_json(),
    }
}

#[test]
fn report_contains_sections_badges_and_json() {
    let html = render_report(&sample_report());
    for needle in [
        "Ping",
        "Teams ports",
        "Bandwidth",
        "Metric is macOS networkQuality download/upload throughput",
        "bufferbloat",
        "badge pass",
        "background:#16191d",
        "application/json",
        "\"grade\": \"A\"",
    ] {
        assert!(html.contains(needle), "missing {needle}");
    }
}

#[test]
fn report_rows() {
    let mut report = sample_report();
    report.tcp = vec![TcpRow { host: "a<b".into(), port: 443, ok: false }];
    report.udp = vec![
        UdpRow {
            host: "stun.example".into(),
            port: 3478,
            reflexive_address: Some("203.0.113.5:5000".into()),
            rtt: Some("12.34".into()),
            ok: true,
            rtt_status: Status::Warn,
        },
        UdpRow {
            host: "stun.example".into(),
            port: 19302,
            reflexive_address: None,
            rtt: None,
            ok: false,
            rtt_status: Status::Pass,
        },
    ];
    report.bandwidth_ok = false;
    let html = render_report(&report);
    assert!(html.contains(
        "<tr><td>1.1.1.1</td><td>10.00 ms</td><td>2.00 ms</td><td>0.00% <span class=\"badge pass\">pass</span></td><td><span class=\"badge pass\">pass</span></td></tr>"
    ));
    assert!(html.contains("<tr><td>a&lt;b</td><td>443</td><td><span class=\"badge fail\">fail</span></td></tr>"));
    assert!(html.contains("<tr><td>stun.example</td><td>3478</td><td>203.0.113.5:5000</td><td>12.34 ms</td><td><span class=\"badge warn\">warn</span></td></tr>"));
    assert!(html.contains("<tr><td>stun.example</td><td>19302</td><td>—</td><td>—</td><td><span class=\"badge fail\">fail</span></td></tr>"));
    assert!(html.contains("Upload: <strong>25.00 Mbps</strong> <span class=\"badge warn\">warn</span>"));
    assert!(html.starts_with("<!doctype html>"));
    assert!(html.ends_with("</script></body></html>"));
}

#[test]
fn escaping() {
    assert_eq!(esc("a & b <c> \"d\""), "a &amp; b &lt;c&gt; &quot;d&quot;");
    assert_eq!(esc("plain"), "plain");
    assert_eq!(esc("&amp;"), "&amp;amp;");
}

#[test]
fn badges() {
    assert_eq!(badge("pass"), "<span class=\"badge pass\">pass</span>");
    assert_eq!(Status::Warn.name(), "warn");
    assert_eq!(Status::Fail.name(), "fail");
}

#[test]
fn raw_results_cannot_close_the_script() {
    assert_eq!(script_safe_json("{\"a\": \"</script>\"}"), "{\"a\": \"<\\/script>\"}");
    assert_eq!(script_safe_json("<</script</scrip"), "<<\\/script</scrip");
    let mut report = sample_report();
    report.json = "\"</script><b>\"".into();
    let html = render_report(&report);
    assert_eq!(html.matches("</script").count(), 1);
}
