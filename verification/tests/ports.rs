use netburn::ports::{
    discover_endpoints, endpoint_service_url, env_override, new_endpoint_service_url,
    parse_signaling_hosts, parse_stun_response, ports_stage_message, ports_summary,
    reference_stun_hosts, stun_request, udp_targets, Endpoint, StunAddress, StunProbe,
    ENV_OVERRIDE_SOURCE, MAGIC_COOKIE,
};

fn endpoints_from_json(json: &str) -> Vec<Endpoint> {
    let value: serde_json::Value = serde_json::from_str(json).unwrap();
    value
        .as_array()
        .unwrap()
        .iter()
        .map(|e| Endpoint {
            display_name: e["serviceAreaDisplayName"].as_str().map(String::from),
            category: e["category"].as_str().map(String::from),
            urls: e["urls"].as_array().map(|urls| {
                urls.iter().map(|u| u.as_str().unwrap().to_string()).collect()
            }),
        })
        .collect()
}

fn xor_mapped_response(request: &[u8], ip: [u8; 4], port: u16) -> Vec<u8> {
    let mut response = request.to_vec();
    response[0] = 1;
    response[1] = 1;
    response[2..4].copy_from_slice(&12u16.to_be_bytes());
    response.extend_from_slice(&0x0020u16.to_be_bytes());
    response.extend_from_slice(&8u16.to_be_bytes());
    response.extend_from_slice(&[0, 1]);
    response.extend_from_slice(&(port ^ 0x2112u16).to_be_bytes());
    let cookie = MAGIC_COOKIE.to_be_bytes();
    response.extend((0..4).map(|i| ip[i] ^ cookie[i]));
    response
}

#[test]
fn stun_round_trip_codec() {
    let tx = [7u8; 12];
    let request = stun_request(tx);
    let mut response = request.clone();
    response[0] = 1;
    response[1] = 1;
    response[2..4].copy_from_slice(&12u16.to_be_bytes());
    response.extend_from_slice(&0x0020u16.to_be_bytes());
    response.extend_from_slice(&8u16.to_be_bytes());
    response.extend_from_slice(&[0, 1]);
    response.extend_from_slice(&(4000u16 ^ 0x2112u16).to_be_bytes());
    let cookie = MAGIC_COOKIE.to_be_bytes();
    response.extend((0..4).map(|i| [127, 0, 0, 1][i] ^ cookie[i]));
    assert_eq!(
        parse_stun_response(&response, &tx).map(|a| a.to_text()),
        Some("127.0.0.1:4000".to_string())
    );
}

#[test]
fn stun_request_layout() {
    let tx = [9u8; 12];
    let request = stun_request(tx);
    assert_eq!(request.len(), 20);
    assert_eq!(&request[0..8], &[0x00, 0x01, 0x00, 0x00, 0x21, 0x12, 0xA4, 0x42]);
    assert_eq!(&request[8..20], &tx);
}

#[test]
fn stun_response_rejections() {
    let tx = [3u8; 12];
    let good = xor_mapped_response(&stun_request(tx), [10, 1, 2, 3], 5000);
    let a = parse_stun_response(&good, &tx).unwrap();
    assert_eq!(a.ip, (10, 1, 2, 3));
    assert_eq!(a.port, 5000);
    // another transaction
    assert!(parse_stun_response(&good, &[4u8; 12]).is_none());
    // a request is not a response
    assert!(parse_stun_response(&stun_request(tx), &tx).is_none());
    // truncated header
    assert!(parse_stun_response(&good[..19], &tx).is_none());
    // attribute running past the packet
    let mut long = good.clone();
    long[22..24].copy_from_slice(&40u16.to_be_bytes());
    assert!(parse_stun_response(&long, &tx).is_none());
    // IPv6 family is skipped
    let mut v6 = good.clone();
    v6[25] = 2;
    assert!(parse_stun_response(&v6, &tx).is_none());
}

#[test]
fn stun_skips_unknown_attribute_with_padding() {
    let tx = [5u8; 12];
    let mut packet = stun_request(tx);
    packet[0] = 0x01;
    packet[1] = 0x01;
    // SOFTWARE attribute of 5 bytes, padded to 8, then MAPPED-ADDRESS
    packet.extend_from_slice(&0x8022u16.to_be_bytes());
    packet.extend_from_slice(&5u16.to_be_bytes());
    packet.extend_from_slice(&[b'a', b'b', b'c', b'd', b'e', 0, 0, 0]);
    packet.extend_from_slice(&0x0001u16.to_be_bytes());
    packet.extend_from_slice(&8u16.to_be_bytes());
    packet.extend_from_slice(&[0, 1]);
    packet.extend_from_slice(&(1234u16 ^ 0x2112).to_be_bytes());
    let cookie = MAGIC_COOKIE.to_be_bytes();
    packet.extend((0..4).map(|i| [192, 0, 2, 7][i] ^ cookie[i]));
    let length = (packet.len() - 20) as u16;
    packet[2..4].copy_from_slice(&length.to_be_bytes());
    let a = parse_stun_response(&packet, &tx).unwrap();
    assert_eq!(a.to_text(), "192.0.2.7:1234");
}

#[test]
fn udp_check_probe_against_stun_fake() {
    // A fake STUN server answers a binding request with an XOR-MAPPED-ADDRESS
    // of the peer; here it runs without sockets.
    let mut request = Vec::new();
    request.extend_from_slice(&1u16.to_be_bytes());
    request.extend_from_slice(&0u16.to_be_bytes());
    request.extend_from_slice(&0x2112_A442u32.to_be_bytes());
    request.extend_from_slice(&[42u8; 12]);
    assert_eq!(request, stun_request([42u8; 12]));
    let buf = xor_mapped_response(&request, [127, 0, 0, 1], 40000);
    let size = buf.len();
    assert_eq!(&buf[0..2], &0x0101u16.to_be_bytes());
    assert_eq!(&buf[8..20], &[42u8; 12]);
    assert!(size >= 32);
    assert_eq!(
        parse_stun_response(&buf, &[42u8; 12]).map(|a| a.to_text()),
        Some("127.0.0.1:40000".to_string())
    );
}

#[test]
fn probe_sends_retries_plus_one_requests() {
    let mut probe = StunProbe::new(1);
    let first = probe.next_request().unwrap();
    assert_eq!(first.len(), 20);
    let reply = xor_mapped_response(&first, [198, 51, 100, 4], 3478);
    assert_eq!(probe.read_reply(&reply).map(|a| a.to_text()), Some("198.51.100.4:3478".to_string()));
    assert!(probe.next_request().is_some());
    assert!(probe.next_request().is_none());
}

#[test]
fn address_text() {
    let a = StunAddress { ip: (255, 0, 10, 200), port: 65535 };
    assert_eq!(a.to_text(), "255.0.10.200:65535");
}

#[test]
fn parses_signaling_hosts_from_endpoint_payload() {
    let json = r#"[
            {"id": 11, "serviceArea": "Skype", "serviceAreaDisplayName": "Microsoft Teams", "category": "Optimize", "ips": ["52.112.0.0/14"], "udpPorts": "3478,3479,3480,3481"},
            {"id": 12, "serviceArea": "Skype", "serviceAreaDisplayName": "Microsoft Teams", "category": "Allow", "urls": ["*.lync.com", "*.teams.microsoft.com", "teams.microsoft.com", "teams.cloud.microsoft"], "tcpPorts": "80,443"},
            {"id": 16, "serviceArea": "Skype", "serviceAreaDisplayName": "Microsoft Teams", "category": "Default", "urls": ["mlccdnprod.azureedge.net"]},
            {"id": 1, "serviceArea": "Exchange", "serviceAreaDisplayName": "Exchange Online", "category": "Optimize", "urls": ["outlook.office.com"]}
        ]"#;
    let endpoints = endpoints_from_json(json);
    let hosts = parse_signaling_hosts(&endpoints);
    assert_eq!(
        hosts,
        vec!["lync.com", "teams.microsoft.com", "teams.cloud.microsoft"]
    );
}

#[test]
fn signaling_host_urls_lose_scheme_path_and_wildcard() {
    let endpoints = vec![Endpoint {
        display_name: Some("Microsoft Teams".into()),
        category: Some("Optimize".into()),
        urls: Some(vec![
            "https://*.example.com/path".into(),
            "http://plain.example.org".into(),
            "https://".into(),
            "plain.example.org/other".into(),
        ]),
    }];
    assert_eq!(
        parse_signaling_hosts(&endpoints),
        vec!["example.com", "plain.example.org"]
    );
}

#[test]
fn discovery_falls_back_or_puts_teams_first() {
    let (hosts, source) = discover_endpoints(None);
    assert_eq!(hosts, vec!["teams.microsoft.com", "lync.com", "teams.cloud.microsoft"]);
    assert_eq!(source, "static fallback");
    let (hosts, source) = discover_endpoints(Some(vec![]));
    assert_eq!(hosts, vec!["teams.microsoft.com", "lync.com", "teams.cloud.microsoft"]);
    assert_eq!(source, "static fallback");
    let one = vec![Endpoint {
        display_name: Some("Microsoft Teams".into()),
        category: Some("Allow".into()),
        urls: Some(vec!["*.lync.com".into()]),
    }];
    let (hosts, source) = discover_endpoints(Some(one));
    assert_eq!(hosts, vec!["teams.microsoft.com", "lync.com"]);
    assert_eq!(source, "Microsoft 365 endpoint service");
}

#[test]
fn endpoint_service_request_id() {
    assert_eq!(
        endpoint_service_url(0xdeadbeef, 0x1, 0xabcd, 0xffff, 0xffff_0123_4567_89ab),
        "https://endpoints.office.com/endpoints/worldwide?clientrequestid=deadbeef-0001-abcd-ffff-0123456789ab"
    );
    let url = new_endpoint_service_url();
    let id = url.rsplit('=').next().unwrap();
    assert_eq!(id.len(), 36);
    assert_eq!(id.matches('-').count(), 4);
}

#[test]
fn ports_json_structure_with_env_overrides() {
    let (tcp, udp) = env_override(Some("127.0.0.1".into()), Some("127.0.0.1".into())).unwrap();
    assert_eq!(ENV_OVERRIDE_SOURCE, "env override");
    let checks = udp_targets(&udp);
    assert_eq!(checks.len(), 2);
    assert!(checks.iter().all(|c| c.port > 0));
    assert_eq!(tcp.len(), 1);
}

#[test]
fn env_override_needs_both_lists() {
    assert!(env_override(Some("a".into()), None).is_none());
    assert!(env_override(None, Some("a".into())).is_none());
    let (tcp, udp) = env_override(Some("a,b,,c".into()), Some("".into())).unwrap();
    assert_eq!(tcp, vec!["a", "b", "", "c"]);
    assert_eq!(udp, vec![""]);
}

#[test]
fn reference_servers_and_their_ports() {
    let hosts = reference_stun_hosts();
    assert_eq!(hosts, vec!["stun.l.google.com", "stun.cloudflare.com"]);
    let plan: Vec<(String, u16)> = udp_targets(&hosts).into_iter().map(|t| (t.host, t.port)).collect();
    assert_eq!(
        plan,
        vec![
            ("stun.l.google.com".to_string(), 3478),
            ("stun.l.google.com".to_string(), 19302),
            ("stun.cloudflare.com".to_string(), 3478),
        ]
    );
}

#[test]
fn port_summaries() {
    assert_eq!(ports_stage_message(&vec![true, false, true], &vec![false]), "Ports: TCP 2/3, UDP 0/1");
    assert_eq!(
        ports_summary("env override", &vec![true], &vec![true, true]),
        "Endpoint source: env override\nTCP checks: 1/1 passed\nUDP checks: 2/2 passed"
    );
}
