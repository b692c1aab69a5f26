//! Settings of the bufferbloat stress test.
use vstd::prelude::*;
use crate::text::{
    chars_of, opt_view, parse_unsigned, parse_unsigned_exec,
};

verus! {

/// The host pinged when none is configured.
pub const DEFAULT_STRESS_TARGET: &'static str = "1.1.1.1";

/// How long the link is loaded when nothing else is configured, in seconds.
pub const DEFAULT_STRESS_SECONDS: u64 = 10;

/// Parallel downloads that load the link.
pub const STRESS_WORKERS: u64 = 4;

/// Bytes fetched by each download.
pub const DOWNLOAD_CHUNK_BYTES: u64 = 2097152;

/// Pings that measure the idle latency.
pub const IDLE_PINGS: u32 = 3;

/// The host to ping: the configured one, or `1.1.1.1`.
pub fn stress_target(configured: Option<String>) -> (target: String)
    ensures
        target@ == match configured {
            Some(s) => s@,
            None => DEFAULT_STRESS_TARGET@,
        },
{
    match configured {
        Some(s) => s,
        None => String::from_str(DEFAULT_STRESS_TARGET),
    }
}

/// The configured duration when it reads as a `u64`, otherwise 10 seconds.
pub open spec fn stress_seconds_of(configured: Option<Seq<char>>) -> u64 {
    match configured {
        Some(s) => match parse_unsigned(s, u64::MAX as nat) {
            Some(v) => v as u64,
            None => DEFAULT_STRESS_SECONDS,
        },
        None => DEFAULT_STRESS_SECONDS,
    }
}

pub fn stress_seconds(configured: Option<String>) -> (seconds: u64)
    ensures
        seconds == stress_seconds_of(
            opt_view(configured),
        ),
{
    match configured {
        Some(s) => {
            let v = chars_of(s.as_str());
            match parse_unsigned_exec(&v, u64::MAX) {
                Some(n) => n,
                None => DEFAULT_STRESS_SECONDS,
            }
        },
        None => DEFAULT_STRESS_SECONDS,
    }
}

} // verus!
