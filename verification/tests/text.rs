use netburn::bandwidth::{download_url, network_quality_failure, network_quality_program, speed_base};
use netburn::stress::{stress_seconds, stress_target};
use netburn::text::{decimal_string, is_float_literal, parse_unsigned_exec};

fn chars(s: &str) -> Vec<char> {
    s.chars().collect()
}

#[test]
fn float_literals_follow_the_documented_grammar() {
    for ok in ["0", "0.0", "1.", ".5", "+3", "-2.5e10", "1E-3", "inf", "-Infinity", "NaN", "8.123"] {
        assert!(is_float_literal(&chars(ok)), "{ok}");
        assert!(ok.parse::<f64>().is_ok(), "{ok}");
    }
    for bad in ["", ".", "e5", "1e", "1e+", "--1", " 1", "1 ", "1.2.3", "0x10", "infinit", "1_000"] {
        assert!(!is_float_literal(&chars(bad)), "{bad}");
        assert!(bad.parse::<f64>().is_err(), "{bad}");
    }
}

#[test]
fn unsigned_parsing() {
    assert_eq!(parse_unsigned_exec(&chars("42"), u32::MAX as u64), Some(42));
    assert_eq!(parse_unsigned_exec(&chars("+7"), u32::MAX as u64), Some(7));
    assert_eq!(parse_unsigned_exec(&chars("4294967295"), u32::MAX as u64), Some(4294967295));
    assert_eq!(parse_unsigned_exec(&chars("4294967296"), u32::MAX as u64), None);
    assert_eq!(parse_unsigned_exec(&chars("-1"), u32::MAX as u64), None);
    assert_eq!(parse_unsigned_exec(&chars("+"), u32::MAX as u64), None);
    assert_eq!(parse_unsigned_exec(&chars(""), u32::MAX as u64), None);
    assert_eq!(parse_unsigned_exec(&chars("1a"), u32::MAX as u64), None);
    assert_eq!(parse_unsigned_exec(&chars("18446744073709551615"), u64::MAX), Some(u64::MAX));
}

#[test]
fn decimal_round_trip() {
    for n in [0u64, 7, 10, 99, 100, 4000, u64::MAX] {
        let s = decimal_string(n);
        assert_eq!(s, n.to_string());
        assert_eq!(parse_unsigned_exec(&chars(&s), u64::MAX), Some(n));
    }
}

#[test]
fn download_endpoint() {
    assert_eq!(speed_base(None), "https://speed.cloudflare.com");
    assert_eq!(speed_base(Some("http://localhost:8080//".into())), "http://localhost:8080");
    assert_eq!(
        download_url("https://speed.cloudflare.com", 2 * 1024 * 1024),
        "https://speed.cloudflare.com/__down?bytes=2097152"
    );
    assert_eq!(network_quality_program(None), "networkQuality");
    assert_eq!(network_quality_program(Some("/tmp/nq".into())), "/tmp/nq");
    assert_eq!(network_quality_failure("  boom \n"), "networkQuality failed: boom");
}

#[test]
fn stress_settings() {
    assert_eq!(stress_target(None), "1.1.1.1");
    assert_eq!(stress_target(Some("9.9.9.9".into())), "9.9.9.9");
    assert_eq!(stress_seconds(None), 10);
    assert_eq!(stress_seconds(Some("3".into())), 3);
    assert_eq!(stress_seconds(Some("soon".into())), 10);
}
