//! Where bandwidth is measured from: the `networkQuality` tool and the
//! download endpoint used to load the link.
use vstd::prelude::*;
use crate::text::{
    append_chars, append_str, chars_of, decimal_text, opt_view, push_decimal, string_of, trim,
    trim_end_char, trim_end_char_exec, trim_exec,
};

verus! {

/// The download service used when none is configured.
pub const DEFAULT_SPEED_BASE: &'static str = "https://speed.cloudflare.com";

/// The measuring tool used when none is configured.
pub const DEFAULT_NETWORK_QUALITY: &'static str = "networkQuality";

/// The base URL of the download service: the configured one (or the
/// default) without trailing slashes.
pub open spec fn speed_base_url(configured: Option<Seq<char>>) -> Seq<char> {
    match configured {
        Some(b) => trim_end_char(b, '/'),
        None => trim_end_char(DEFAULT_SPEED_BASE@, '/'),
    }
}

pub fn speed_base(configured: Option<String>) -> (base: String)
    ensures
        base@ == speed_base_url(
            opt_view(configured),
        ),
{
    let v = match &configured {
        Some(b) => chars_of(b.as_str()),
        None => chars_of(DEFAULT_SPEED_BASE),
    };
    let t = trim_end_char_exec(&v, '/');
    string_of(&t)
}

/// The URL that serves `size` bytes.
pub open spec fn download_url_text(base: Seq<char>, size: u64) -> Seq<char> {
    base + "/__down?bytes="@ + decimal_text(size as nat)
}

pub fn download_url(base: &str, size: u64) -> (url: String)
    ensures
        url@ == download_url_text(base@, size),
{
    let mut v: Vec<char> = Vec::new();
    append_str(&mut v, base);
    append_str(&mut v, "/__down?bytes=");
    push_decimal(&mut v, size);
    assert(v@ =~= download_url_text(base@, size));
    string_of(&v)
}

/// The measuring tool: the configured one, or `networkQuality`.
pub fn network_quality_program(configured: Option<String>) -> (program: String)
    ensures
        program@ == match configured {
            Some(s) => s@,
            None => DEFAULT_NETWORK_QUALITY@,
        },
{
    match configured {
        Some(s) => s,
        None => String::from_str(DEFAULT_NETWORK_QUALITY),
    }
}

/// The error reported when the measuring tool fails: its trimmed standard error.
pub fn network_quality_failure(stderr: &str) -> (message: String)
    ensures
        message@ == "networkQuality failed: "@ + trim(stderr@),
{
    let mut v: Vec<char> = Vec::new();
    append_str(&mut v, "networkQuality failed: ");
    let e = chars_of(stderr);
    let t = trim_exec(&e);
    append_chars(&mut v, &t);
    string_of(&v)
}

} // verus!
