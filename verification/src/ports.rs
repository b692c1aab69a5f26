use vstd::prelude::*;
use crate::text::{
    append_str, chars_of, decimal_text, deep_views, hex_fixed, opt_view, push_decimal,
    push_hex_fixed, split_char, split_char_exec, split_scan, starts_with, string_of,
    strip_prefix_all, strip_prefix_all_exec,
};

verus! {

/// The fixed value that every STUN message carries in bytes 4..8 (RFC 5389).
pub const MAGIC_COOKIE: u32 = 0x2112_A442;

/// The bytes of the magic cookie, most significant first.
pub open spec fn cookie_bytes() -> Seq<u8> {
    seq![0x21u8, 0x12u8, 0xA4u8, 0x42u8]
}

/// A Binding Request: message type 0x0001, length 0, the cookie, then the transaction id.
pub open spec fn spec_stun_request(transaction: Seq<u8>) -> Seq<u8> {
    seq![0x00u8, 0x01u8, 0x00u8, 0x00u8] + cookie_bytes() + transaction
}

/// Encodes a STUN Binding Request without attributes.
pub fn stun_request(transaction: [u8; 12]) -> (packet: Vec<u8>)
    ensures
        packet@ == spec_stun_request(transaction@),
        packet@.len() == 20,
{
    let mut packet: Vec<u8> = Vec::with_capacity(20);
    packet.push(0x00);
    packet.push(0x01);
    packet.push(0x00);
    packet.push(0x00);
    packet.push(0x21);
    packet.push(0x12);
    packet.push(0xA4);
    packet.push(0x42);
    let mut i: usize = 0;
    while i < 12
        invariant
            0 <= i <= 12,
            packet@ == seq![0x00u8, 0x01u8, 0x00u8, 0x00u8] + cookie_bytes() + transaction@.take(i as int),
        decreases 12 - i,
    {
        packet.push(transaction[i]);
        proof {
            assert(transaction@.take(i as int + 1) == transaction@.take(i as int).push(transaction@[i as int]));
        }
        i = i + 1;
    }
    proof {
        assert(transaction@.take(12) == transaction@);
    }
    packet
}

/// An IPv4 address and port, as a STUN server reports the client's
/// reflexive transport address.
pub struct StunAddress {
    pub ip: (u8, u8, u8, u8),
    pub port: u16,
}

/// A big-endian 16-bit field.
pub open spec fn be16(hi: u8, lo: u8) -> u16 {
    ((hi as u16) << 8u16) | (lo as u16)
}

/// An attribute's length rounded up to a multiple of four (its padding).
pub open spec fn padded(size: int) -> int {
    (size + 3) / 4 * 4
}

/// The address carried by the attribute at `pos`: port and address bytes
/// XOR-ed with the magic cookie.
pub open spec fn attribute_address(p: Seq<u8>, pos: int) -> StunAddress {
    StunAddress {
        ip: (p[pos + 8] ^ 0x21u8, p[pos + 9] ^ 0x12u8, p[pos + 10] ^ 0xA4u8, p[pos + 11] ^ 0x42u8),
        port: be16(p[pos + 6], p[pos + 7]) ^ 0x2112u16,
    }
}

/// Walks the attributes from `pos` while a 4-byte attribute header fits
/// before `end`: an attribute that runs past the packet ends the walk with
/// nothing; the first MAPPED-ADDRESS (0x0001) or XOR-MAPPED-ADDRESS (0x0020)
/// attribute of at least 8 bytes with address family 1 (IPv4) gives the
/// address; any other attribute is skipped with its padding.
pub open spec fn scan_attributes(p: Seq<u8>, pos: int, end: int) -> Option<StunAddress>
    decreases p.len() + 8 - pos,
{
    if pos < 0 || pos + 4 > end || end > p.len() {
        None
    } else {
        let kind = be16(p[pos], p[pos + 1]);
        let size = be16(p[pos + 2], p[pos + 3]) as int;
        if pos + 4 + size > p.len() {
            None
        } else if (kind == 0x0020u16 || kind == 0x0001u16) && size >= 8 && p[pos + 5] == 1u8 {
            Some(attribute_address(p, pos))
        } else {
            scan_attributes(p, pos + 4 + padded(size), end)
        }
    }
}

/// What a Binding success response to the request with `transaction` says
/// about the client's address: nothing unless the packet has a full header,
/// the message type has the success-response class bits (`type & 0x0110 ==
/// 0x0100`), and bytes 8..20 equal the transaction id; then the attributes
/// within the declared length (cut to what the packet holds) are walked.
pub open spec fn stun_response_address(p: Seq<u8>, transaction: Seq<u8>) -> Option<StunAddress> {
    if p.len() < 20 || (be16(p[0], p[1]) & 0x0110u16) != 0x0100u16 || p.subrange(8, 20)
        != transaction {
        None
    } else {
        let declared = be16(p[2], p[3]) as int;
        let length = if declared < p.len() - 20 {
            declared
        } else {
            p.len() - 20
        };
        scan_attributes(p, 20, 20 + length)
    }
}

proof fn lemma_padding(size: usize)
    requires
        size < 65536,
    ensures
        ((size + 3) as usize) & !3usize == padded(size as int),
        size as int <= padded(size as int) <= size + 3,
{
    assert(((size + 3) as usize) & !3usize == (size + 3) / 4 * 4) by (bit_vector)
        requires
            size < 65536,
    ;
}

fn be16_exec(hi: u8, lo: u8) -> (r: u16)
    ensures
        r == be16(hi, lo),
{
    ((hi as u16) << 8u16) | (lo as u16)
}

/// Reads the client's reflexive address from a STUN Binding response to the
/// request with `transaction`.
pub fn parse_stun_response(packet: &[u8], transaction: &[u8; 12]) -> (r: Option<StunAddress>)
    ensures
        r == stun_response_address(packet@, transaction@),
{
    let n = packet.len();
    if n < 20 || (be16_exec(packet[0], packet[1]) & 0x0110u16) != 0x0100u16 {
        return None;
    }
    let mut i: usize = 0;
    while i < 12
        invariant
            n == packet@.len(),
            n >= 20,
            0 <= i <= 12,
            transaction@.len() == 12,
            forall|j: int| 0 <= j < i ==> packet@[8 + j] == transaction@[j],
        decreases 12 - i,
    {
        if packet[8 + i] != transaction[i] {
            proof {
                assert(packet@.subrange(8, 20)[i as int] != transaction@[i as int]);
            }
            return None;
        }
        i = i + 1;
    }
    proof {
        assert(packet@.subrange(8, 20) =~= transaction@);
    }
    let declared = be16_exec(packet[2], packet[3]) as usize;
    let length = if declared < n - 20 {
        declared
    } else {
        n - 20
    };
    let end = 20 + length;
    let mut pos: usize = 20;
    while pos <= end - 4
        invariant
            n == packet@.len(),
            20 <= end <= n,
            20 <= pos,
            stun_response_address(packet@, transaction@) == scan_attributes(packet@, pos as int, end as int),
        decreases n + 8 - pos,
    {
        let kind = be16_exec(packet[pos], packet[pos + 1]);
        let size = be16_exec(packet[pos + 2], packet[pos + 3]) as usize;
        if size > n - (pos + 4) {
            return None;
        }
        if (kind == 0x0020u16 || kind == 0x0001u16) && size >= 8 && packet[pos + 5] == 1u8 {
            let port = be16_exec(packet[pos + 6], packet[pos + 7]) ^ 0x2112u16;
            let ip = (
                packet[pos + 8] ^ 0x21u8,
                packet[pos + 9] ^ 0x12u8,
                packet[pos + 10] ^ 0xA4u8,
                packet[pos + 11] ^ 0x42u8,
            );
            return Some(StunAddress { ip, port });
        }
        proof {
            lemma_padding(size);
        }
        let step = 4 + ((size + 3) & !3usize);
        proof {
            assert(scan_attributes(packet@, pos as int, end as int) == scan_attributes(
                packet@,
                pos + step,
                end as int,
            ));
        }
        if step > end - pos {
            proof {
                assert(scan_attributes(packet@, pos + step, end as int) is None);
            }
            return None;
        }
        pos = pos + step;
    }
    None
}

/// A Binding success response to the request with `transaction` that reports
/// `addr` in a single XOR-MAPPED-ADDRESS attribute (RFC 5389, section 15.2).
pub open spec fn xor_mapped_response(transaction: Seq<u8>, addr: StunAddress) -> Seq<u8> {
    let xport = addr.port ^ 0x2112u16;
    seq![0x01u8, 0x01u8, 0x00u8, 0x0Cu8] + cookie_bytes() + transaction + seq![
        0x00u8,
        0x20u8,
        0x00u8,
        0x08u8,
        0x00u8,
        0x01u8,
        (xport >> 8u16) as u8,
        (xport & 0xffu16) as u8,
        addr.ip.0 ^ 0x21u8,
        addr.ip.1 ^ 0x12u8,
        addr.ip.2 ^ 0xA4u8,
        addr.ip.3 ^ 0x42u8,
    ]
}

proof fn lemma_be16_split(v: u16)
    ensures
        be16((v >> 8u16) as u8, (v & 0xffu16) as u8) == v,
{
    assert(((((v >> 8u16) as u8) as u16) << 8u16) | (((v & 0xffu16) as u8) as u16) == v)
        by (bit_vector);
}

proof fn lemma_xor_twice(a: u8, k: u8)
    ensures
        (a ^ k) ^ k == a,
{
    assert((a ^ k) ^ k == a) by (bit_vector);
}

/// The address that a server reports in an XOR-MAPPED-ADDRESS attribute is
/// the address that is read back from its response.
pub proof fn law_stun_response_round_trip(transaction: Seq<u8>, addr: StunAddress)
    requires
        transaction.len() == 12,
    ensures
        stun_response_address(xor_mapped_response(transaction, addr), transaction) == Some(addr),
{
    let p = xor_mapped_response(transaction, addr);
    let xport = addr.port ^ 0x2112u16;
    assert(p.len() == 32);
    assert(p.subrange(8, 20) =~= transaction);
    assert(be16(0x01u8, 0x01u8) & 0x0110u16 == 0x0100u16) by (bit_vector);
    assert(be16(0x00u8, 0x0Cu8) == 12u16) by (bit_vector);
    assert(be16(0x00u8, 0x20u8) == 0x0020u16) by (bit_vector);
    assert(be16(0x00u8, 0x08u8) == 8u16) by (bit_vector);
    assert(p[20] == 0x00u8 && p[21] == 0x20u8 && p[22] == 0x00u8 && p[23] == 0x08u8);
    assert(p[25] == 0x01u8);
    assert(p[26] == (xport >> 8u16) as u8 && p[27] == (xport & 0xffu16) as u8);
    lemma_be16_split(xport);
    let port = addr.port;
    assert(xport ^ 0x2112u16 == port) by (bit_vector)
        requires
            xport == port ^ 0x2112u16,
    ;
    lemma_xor_twice(addr.ip.0, 0x21u8);
    lemma_xor_twice(addr.ip.1, 0x12u8);
    lemma_xor_twice(addr.ip.2, 0xA4u8);
    lemma_xor_twice(addr.ip.3, 0x42u8);
    assert(p[28] == addr.ip.0 ^ 0x21u8 && p[29] == addr.ip.1 ^ 0x12u8);
    assert(p[30] == addr.ip.2 ^ 0xA4u8 && p[31] == addr.ip.3 ^ 0x42u8);
    assert(scan_attributes(p, 20, 32) == Some(attribute_address(p, 20)));
}

/// A Binding request is never read as a response, whatever transaction id it
/// is checked against.
pub proof fn law_request_is_not_a_response(transaction: Seq<u8>, expected: Seq<u8>)
    requires
        transaction.len() == 12,
    ensures
        stun_response_address(spec_stun_request(transaction), expected) is None,
{
    let p = spec_stun_request(transaction);
    assert(p[0] == 0x00u8 && p[1] == 0x01u8);
    assert(be16(0x00u8, 0x01u8) & 0x0110u16 == 0x0000u16) by (bit_vector);
}

/// An address is read only from a packet that answers the given transaction:
/// it holds a full 20-byte header whose bytes 8..20 are the transaction id.
pub proof fn law_response_answers_transaction(packet: Seq<u8>, transaction: Seq<u8>)
    requires
        stun_response_address(packet, transaction) is Some,
    ensures
        packet.len() >= 20,
        packet.subrange(8, 20) == transaction,
{
}

// ---------------------------------------------------------------------------
// Teams signaling hosts from the Microsoft 365 endpoint service.
// ---------------------------------------------------------------------------

/// One entry of the endpoint service's answer, with the fields that are read.
pub struct Endpoint {
    pub display_name: Option<String>,
    pub category: Option<String>,
    pub urls: Option<Vec<String>>,
}

pub struct EndpointView {
    pub display_name: Option<Seq<char>>,
    pub category: Option<Seq<char>>,
    pub urls: Option<Seq<Seq<char>>>,
}

impl View for Endpoint {
    type V = EndpointView;

    open spec fn view(&self) -> EndpointView {
        EndpointView {
            display_name: opt_view(self.display_name),
            category: opt_view(self.category),
            urls: match self.urls {
                Some(v) => Some(v.deep_view()),
                None => None,
            },
        }
    }
}

pub open spec fn endpoint_views(v: Seq<Endpoint>) -> Seq<EndpointView> {
    Seq::new(v.len(), |i: int| v[i]@)
}

/// A core-connectivity Teams entry: service area "Microsoft Teams" in the
/// Optimize or Allow category ("Default" entries are supporting CDNs).
pub open spec fn is_teams_core(e: EndpointView) -> bool {
    &&& e.display_name == Some("Microsoft Teams"@)
    &&& (e.category == Some("Optimize"@) || e.category == Some("Allow"@))
}

pub open spec fn url_list(e: EndpointView) -> Seq<Seq<char>> {
    match e.urls {
        Some(u) => u,
        None => seq![],
    }
}

/// The host of an endpoint URL: any `https://` and `http://` prefixes
/// removed, cut at the first `/`, and wildcard `*.` prefixes removed
/// (`*.lync.com` becomes `lync.com`).
pub open spec fn host_of_url(url: Seq<char>) -> Seq<char> {
    let no_scheme = strip_prefix_all(strip_prefix_all(url, "https://"@), "http://"@);
    strip_prefix_all(split_char(no_scheme, '/')[0], "*."@)
}

/// Adds a host unless it is empty or already listed.
pub open spec fn add_host(hosts: Seq<Seq<char>>, host: Seq<char>) -> Seq<Seq<char>> {
    if host.len() > 0 && !hosts.contains(host) {
        hosts.push(host)
    } else {
        hosts
    }
}

pub open spec fn add_url_hosts(hosts: Seq<Seq<char>>, urls: Seq<Seq<char>>) -> Seq<Seq<char>>
    decreases urls.len(),
{
    if urls.len() == 0 {
        hosts
    } else {
        add_host(add_url_hosts(hosts, urls.drop_last()), host_of_url(urls.last()))
    }
}

/// The hosts of the Teams core entries, in order of appearance, each once.
pub open spec fn signaling_hosts(endpoints: Seq<EndpointView>) -> Seq<Seq<char>>
    decreases endpoints.len(),
{
    if endpoints.len() == 0 {
        seq![]
    } else {
        let before = signaling_hosts(endpoints.drop_last());
        let e = endpoints.last();
        if is_teams_core(e) {
            add_url_hosts(before, url_list(e))
        } else {
            before
        }
    }
}

fn host_of_url_exec(url: &String) -> (h: String)
    ensures
        h@ == host_of_url(url@),
{
    let u = chars_of(url.as_str());
    let a = strip_prefix_all_exec(&u, "https://");
    let b = strip_prefix_all_exec(&a, "http://");
    let pieces = split_char_exec(&b, '/');
    proof {
        assert(deep_views(pieces@)[0] == pieces@[0]@);
    }
    let c = strip_prefix_all_exec(&pieces[0], "*.");
    string_of(&c)
}

fn listed(hosts: &Vec<String>, host: &String) -> (r: bool)
    ensures
        r == hosts.deep_view().contains(host@),
{
    let mut i: usize = 0;
    while i < hosts.len()
        invariant
            0 <= i <= hosts@.len(),
            forall|j: int| 0 <= j < i ==> hosts@[j]@ != host@,
        decreases hosts@.len() - i,
    {
        if hosts[i] == *host {
            proof {
                assert(hosts.deep_view()[i as int] == host@);
            }
            return true;
        }
        i = i + 1;
    }
    proof {
        if hosts.deep_view().contains(host@) {
            let j = choose|j: int| 0 <= j < hosts.deep_view().len() && hosts.deep_view()[j] == host@;
            assert(hosts@[j]@ == host@);
        }
    }
    false
}

fn is_text(o: &Option<String>, expected: &str) -> (r: bool)
    ensures
        r == (opt_view(*o) == Some(expected@)),
{
    match o {
        Some(s) => {
            let e = String::from_str(expected);
            *s == e
        },
        None => false,
    }
}

/// The Teams signaling hosts named by the endpoint service's entries.
pub fn parse_signaling_hosts(endpoints: &Vec<Endpoint>) -> (hosts: Vec<String>)
    ensures
        hosts.deep_view() == signaling_hosts(endpoint_views(endpoints@)),
{
    let ghost eps = endpoint_views(endpoints@);
    let mut hosts: Vec<String> = Vec::new();
    let mut i: usize = 0;
    while i < endpoints.len()
        invariant
            eps == endpoint_views(endpoints@),
            0 <= i <= endpoints@.len(),
            hosts.deep_view() == signaling_hosts(eps.take(i as int)),
        decreases endpoints@.len() - i,
    {
        let e = &endpoints[i];
        proof {
            assert(eps.take(i + 1).drop_last() == eps.take(i as int));
            assert(eps.take(i + 1).last() == e@);
        }
        let core = is_text(&e.display_name, "Microsoft Teams") && (is_text(&e.category, "Optimize")
            || is_text(&e.category, "Allow"));
        if core {
            match &e.urls {
                Some(urls) => {
                    let ghost start = hosts.deep_view();
                    let ghost uv = urls.deep_view();
                    let mut k: usize = 0;
                    while k < urls.len()
                        invariant
                            uv == urls.deep_view(),
                            0 <= k <= urls@.len(),
                            hosts.deep_view() == add_url_hosts(start, uv.take(k as int)),
                        decreases urls@.len() - k,
                    {
                        proof {
                            assert(uv.take(k + 1).drop_last() == uv.take(k as int));
                            assert(uv.take(k + 1).last() == urls@[k as int]@);
                        }
                        let host = host_of_url_exec(&urls[k]);
                        if host.as_str().unicode_len() > 0 && !listed(&hosts, &host) {
                            let ghost before = hosts.deep_view();
                            let ghost hv = host@;
                            hosts.push(host);
                            proof {
                                assert(hosts.deep_view() =~= before.push(hv));
                            }
                        }
                        k = k + 1;
                    }
                    proof {
                        assert(uv.take(k as int) == uv);
                    }
                },
                None => {
                    proof {
                        assert(add_url_hosts(hosts.deep_view(), seq![]) == hosts.deep_view());
                    }
                },
            }
        }
        i = i + 1;
    }
    proof {
        assert(eps.take(i as int) == eps);
    }
    hosts
}

pub open spec fn teams_host() -> Seq<char> {
    "teams.microsoft.com"@
}

/// The signaling hosts used when the endpoint service gives too little.
pub open spec fn fallback_hosts() -> Seq<Seq<char>> {
    seq![teams_host(), "lync.com"@, "teams.cloud.microsoft"@]
}

/// Which TCP hosts to check, and where the list came from, given the
/// endpoint service's answer (`None` when it could not be fetched or read):
/// its Teams signaling hosts with `teams.microsoft.com` put first when it is
/// missing, or the static fallback when that leaves at most one host.
pub open spec fn discovered_hosts(fetched: Option<Seq<EndpointView>>) -> (Seq<Seq<char>>, Seq<char>) {
    match fetched {
        Some(eps) => {
            let found = signaling_hosts(eps);
            let hosts = if found.contains(teams_host()) {
                found
            } else {
                seq![teams_host()] + found
            };
            if hosts.len() <= 1 {
                (fallback_hosts(), "static fallback"@)
            } else {
                (hosts, "Microsoft 365 endpoint service"@)
            }
        },
        None => (fallback_hosts(), "static fallback"@),
    }
}

fn fallback_list() -> (r: Vec<String>)
    ensures
        r.deep_view() == fallback_hosts(),
{
    let mut r: Vec<String> = Vec::new();
    r.push(String::from_str("teams.microsoft.com"));
    r.push(String::from_str("lync.com"));
    r.push(String::from_str("teams.cloud.microsoft"));
    assert(r.deep_view() =~= fallback_hosts());
    r
}

/// Chooses the TCP signaling hosts from the endpoint service's answer.
pub fn discover_endpoints(fetched: Option<Vec<Endpoint>>) -> (r: (Vec<String>, String))
    ensures
        (r.0.deep_view(), r.1@) == discovered_hosts(
            match fetched {
                Some(v) => Some(endpoint_views(v@)),
                None => None,
            },
        ),
{
    match fetched {
        Some(endpoints) => {
            let mut hosts = parse_signaling_hosts(&endpoints);
            let teams = String::from_str("teams.microsoft.com");
            if !listed(&hosts, &teams) {
                let ghost before = hosts.deep_view();
                hosts.insert(0, teams);
                proof {
                    assert(hosts.deep_view() =~= seq![teams_host()] + before);
                }
            }
            if hosts.len() <= 1 {
                (fallback_list(), String::from_str("static fallback"))
            } else {
                (hosts, String::from_str("Microsoft 365 endpoint service"))
            }
        },
        None => (fallback_list(), String::from_str("static fallback")),
    }
}

/// The client request id sent to the endpoint service, from five random
/// numbers: `8-4-4-4-12` lower-case hex digits, the last group from the low
/// 48 bits of `e`.
pub open spec fn client_request_id(a: u32, b: u16, c: u16, d: u16, e: u64) -> Seq<char> {
    hex_fixed(a as nat, 8) + seq!['-'] + hex_fixed(b as nat, 4) + seq!['-'] + hex_fixed(c as nat, 4) + seq!['-'] + hex_fixed(d as nat, 4) + seq!['-'] + hex_fixed(
        (e & 0xffff_ffff_ffffu64) as nat,
        12,
    )
}

pub open spec fn endpoint_service_url_for(a: u32, b: u16, c: u16, d: u16, e: u64) -> Seq<char> {
    "https://endpoints.office.com/endpoints/worldwide?clientrequestid="@ + client_request_id(
        a,
        b,
        c,
        d,
        e,
    )
}

/// The endpoint service URL for the given request id numbers.
pub fn endpoint_service_url(a: u32, b: u16, c: u16, d: u16, e: u64) -> (url: String)
    ensures
        url@ == endpoint_service_url_for(a, b, c, d, e),
{
    let mut v: Vec<char> = Vec::new();
    append_str(&mut v, "https://endpoints.office.com/endpoints/worldwide?clientrequestid=");
    push_hex_fixed(&mut v, a as u64, 8);
    v.push('-');
    push_hex_fixed(&mut v, b as u64, 4);
    v.push('-');
    push_hex_fixed(&mut v, c as u64, 4);
    v.push('-');
    push_hex_fixed(&mut v, d as u64, 4);
    v.push('-');
    push_hex_fixed(&mut v, e & 0xffff_ffff_ffffu64, 12);
    proof {
        assert(v@ =~= endpoint_service_url_for(a, b, c, d, e));
    }
    string_of(&v)
}

/// A random 64-bit number.
///
/// Trusted: calls `rand::random::<u64>`, which draws from the thread-local
/// generator seeded by the operating system; nothing is promised of the value.
#[verifier::external_body]
fn random_u64() -> u64 {
    rand::random()
}

/// The endpoint service URL with a fresh random client request id.
pub fn new_endpoint_service_url() -> (url: String)
    ensures
        exists|a: u32, b: u16, c: u16, d: u16, e: u64|
            url@ == #[trigger] endpoint_service_url_for(a, b, c, d, e),
{
    let a = random_u64() as u32;
    let b = random_u64() as u16;
    let c = random_u64() as u16;
    let d = random_u64() as u16;
    let e = random_u64();
    endpoint_service_url(a, b, c, d, e)
}

// ---------------------------------------------------------------------------
// Which checks to run.
// ---------------------------------------------------------------------------

/// The TCP port of Teams signaling.
pub const SIGNALING_PORT: u16 = 443;

/// How long a TCP connection attempt may take, in milliseconds.
pub const TCP_TIMEOUT_MS: u64 = 3000;

/// How long to wait for each STUN reply, in milliseconds.
pub const UDP_TIMEOUT_MS: u64 = 800;

/// How many times a STUN request is repeated after the first one.
pub const UDP_RETRIES: u8 = 1;

/// What the UDP checks can and cannot show.
pub const UDP_NOTE: &'static str = "Teams media relays (52.112.0.0/14, 52.122.0.0/15, UDP 3478-3481) only answer authenticated ICE during real calls and cannot be probed passively. These checks verify outbound UDP/STUN egress via public reference servers; a pass means the firewall permits the UDP behavior Teams media needs. A firewall that whitelists only Teams IP ranges may produce a false failure here — confirm with a real Teams call.";

/// The source named when both target lists come from the environment.
pub const ENV_OVERRIDE_SOURCE: &'static str = "env override";

/// The target lists given by the environment, when both are given: each is
/// split at every comma.
pub open spec fn env_targets(tcp: Option<Seq<char>>, udp: Option<Seq<char>>) -> Option<
    (Seq<Seq<char>>, Seq<Seq<char>>),
> {
    match (tcp, udp) {
        (Some(t), Some(u)) => Some((split_char(t, ','), split_char(u, ','))),
        _ => None,
    }
}

fn strings_of(v: &Vec<Vec<char>>) -> (r: Vec<String>)
    ensures
        r.deep_view() == deep_views(v@),
{
    let mut r: Vec<String> = Vec::new();
    let mut i: usize = 0;
    while i < v.len()
        invariant
            0 <= i <= v@.len(),
            r.deep_view() == deep_views(v@).take(i as int),
        decreases v@.len() - i,
    {
        let s = string_of(&v[i]);
        let ghost before = r.deep_view();
        let ghost sv = s@;
        r.push(s);
        proof {
            assert(r.deep_view() =~= before.push(sv));
            assert(deep_views(v@).take(i + 1) =~= deep_views(v@).take(i as int).push(v@[i as int]@));
        }
        i = i + 1;
    }
    proof {
        assert(deep_views(v@).take(i as int) == deep_views(v@));
    }
    r
}

/// The TCP and UDP target hosts given by the environment variables, if both are set.
pub fn env_override(tcp: Option<String>, udp: Option<String>) -> (r: Option<(Vec<String>, Vec<String>)>)
    ensures
        match r {
            Some((t, u)) => env_targets(opt_view(tcp), opt_view(udp)) == Some((t.deep_view(), u.deep_view())),
            None => env_targets(opt_view(tcp), opt_view(udp)) is None,
        },
{
    match (tcp, udp) {
        (Some(t), Some(u)) => {
            let tv = chars_of(t.as_str());
            let uv = chars_of(u.as_str());
            let tp = split_char_exec(&tv, ',');
            let up = split_char_exec(&uv, ',');
            Some((strings_of(&tp), strings_of(&up)))
        },
        _ => None,
    }
}

/// The public STUN servers probed when the environment names none.
pub open spec fn reference_stun_hosts_view() -> Seq<Seq<char>> {
    seq!["stun.l.google.com"@, "stun.cloudflare.com"@]
}

pub fn reference_stun_hosts() -> (r: Vec<String>)
    ensures
        r.deep_view() == reference_stun_hosts_view(),
{
    let mut r: Vec<String> = Vec::new();
    r.push(String::from_str("stun.l.google.com"));
    r.push(String::from_str("stun.cloudflare.com"));
    assert(r.deep_view() =~= reference_stun_hosts_view());
    r
}

/// The UDP ports probed on a STUN host: the reference server's own list, and
/// 3478 and 19302 for any other host.
pub open spec fn stun_ports_view(host: Seq<char>) -> Seq<u16> {
    if host == "stun.cloudflare.com"@ {
        seq![3478u16]
    } else {
        seq![3478u16, 19302u16]
    }
}

/// One UDP probe to run: a STUN server and port.
pub struct UdpTarget {
    pub host: String,
    pub port: u16,
}

pub open spec fn udp_plan(hosts: Seq<Seq<char>>) -> Seq<(Seq<char>, u16)>
    decreases hosts.len(),
{
    if hosts.len() == 0 {
        seq![]
    } else {
        let h = hosts.last();
        udp_plan(hosts.drop_last()) + stun_ports_view(h).map_values(|p: u16| (h, p))
    }
}

pub open spec fn udp_target_views(v: Seq<UdpTarget>) -> Seq<(Seq<char>, u16)> {
    Seq::new(v.len(), |i: int| (v[i].host@, v[i].port))
}

/// Every host with each of its STUN ports, in order.
pub fn udp_targets(hosts: &Vec<String>) -> (r: Vec<UdpTarget>)
    ensures
        udp_target_views(r@) == udp_plan(hosts.deep_view()),
{
    let ghost hv = hosts.deep_view();
    let mut r: Vec<UdpTarget> = Vec::new();
    let mut i: usize = 0;
    while i < hosts.len()
        invariant
            hv == hosts.deep_view(),
            0 <= i <= hosts@.len(),
            udp_target_views(r@) == udp_plan(hv.take(i as int)),
        decreases hosts@.len() - i,
    {
        let h = &hosts[i];
        proof {
            assert(hv.take(i + 1).drop_last() == hv.take(i as int));
            assert(hv.take(i + 1).last() == h@);
        }
        let ghost before = udp_target_views(r@);
        let cloudflare = String::from_str("stun.cloudflare.com");
        if *h == cloudflare {
            r.push(UdpTarget { host: h.clone(), port: 3478 });
            proof {
                assert(udp_target_views(r@) =~= before + stun_ports_view(h@).map_values(
                    |p: u16| (h@, p),
                ));
            }
        } else {
            r.push(UdpTarget { host: h.clone(), port: 3478 });
            r.push(UdpTarget { host: h.clone(), port: 19302 });
            proof {
                assert(udp_target_views(r@) =~= before + stun_ports_view(h@).map_values(
                    |p: u16| (h@, p),
                ));
            }
        }
        i = i + 1;
    }
    proof {
        assert(hv.take(i as int) == hv);
    }
    r
}

// ---------------------------------------------------------------------------
// One STUN probe: a request per attempt until a reply names the address.
// ---------------------------------------------------------------------------

/// A fresh random transaction id: twelve bytes of two random numbers.
fn random_transaction() -> [u8; 12] {
    let x = random_u64();
    let y = random_u64();
    [
        x as u8,
        (x >> 8u64) as u8,
        (x >> 16u64) as u8,
        (x >> 24u64) as u8,
        (x >> 32u64) as u8,
        (x >> 40u64) as u8,
        (x >> 48u64) as u8,
        (x >> 56u64) as u8,
        y as u8,
        (y >> 8u64) as u8,
        (y >> 16u64) as u8,
        (y >> 24u64) as u8,
    ]
}

/// The state of a STUN probe: how many requests may still be sent, and the
/// transaction id of the last one.
pub struct StunProbe {
    attempts_left: u16,
    transaction: [u8; 12],
}

impl StunProbe {
    pub closed spec fn attempts_left(&self) -> nat {
        self.attempts_left as nat
    }

    pub closed spec fn transaction(&self) -> Seq<u8> {
        self.transaction@
    }

    /// A probe that sends at most `retries + 1` requests.
    pub fn new(retries: u8) -> (p: StunProbe)
        ensures
            p.attempts_left() == retries as nat + 1,
    {
        StunProbe { attempts_left: retries as u16 + 1, transaction: [0u8; 12] }
    }

    /// The next request to send, under a fresh transaction id, or `None` once
    /// every attempt has been used.
    pub fn next_request(&mut self) -> (r: Option<Vec<u8>>)
        ensures
            old(self).attempts_left() == 0 ==> r is None && final(self).attempts_left() == 0,
            old(self).attempts_left() > 0 ==> {
                &&& final(self).attempts_left() == old(self).attempts_left() - 1
                &&& final(self).transaction().len() == 12
                &&& r matches Some(req) && req@ == spec_stun_request(final(self).transaction())
            },
    {
        if self.attempts_left == 0 {
            return None;
        }
        self.attempts_left = self.attempts_left - 1;
        self.transaction = random_transaction();
        let request = stun_request(self.transaction);
        Some(request)
    }

    /// The address in `reply`, when it answers the last request.
    pub fn read_reply(&self, reply: &[u8]) -> (r: Option<StunAddress>)
        ensures
            r == stun_response_address(reply@, self.transaction()),
    {
        parse_stun_response(reply, &self.transaction)
    }
}


/// `a.b.c.d:port`, as `SocketAddr` displays an IPv4 address.
pub open spec fn address_text(a: StunAddress) -> Seq<char> {
    decimal_text(a.ip.0 as nat) + seq!['.'] + decimal_text(a.ip.1 as nat) + seq!['.'] + decimal_text(
        a.ip.2 as nat,
    ) + seq!['.'] + decimal_text(a.ip.3 as nat) + seq![':'] + decimal_text(a.port as nat)
}

impl StunAddress {
    /// The address written as `a.b.c.d:port`.
    pub fn to_text(&self) -> (s: String)
        ensures
            s@ == address_text(*self),
    {
        let mut v: Vec<char> = Vec::new();
        push_decimal(&mut v, self.ip.0 as u64);
        v.push('.');
        push_decimal(&mut v, self.ip.1 as u64);
        v.push('.');
        push_decimal(&mut v, self.ip.2 as u64);
        v.push('.');
        push_decimal(&mut v, self.ip.3 as u64);
        v.push(':');
        push_decimal(&mut v, self.port as u64);
        proof {
            assert(v@ =~= address_text(*self));
        }
        string_of(&v)
    }
}

// ---------------------------------------------------------------------------
// Summaries.
// ---------------------------------------------------------------------------

/// How many checks passed.
pub open spec fn passed(oks: Seq<bool>) -> nat
    decreases oks.len(),
{
    if oks.len() == 0 {
        0
    } else {
        passed(oks.drop_last()) + if oks.last() {
            1nat
        } else {
            0nat
        }
    }
}

fn count_passed(oks: &Vec<bool>) -> (n: u64)
    ensures
        n as nat == passed(oks@),
        n <= oks@.len(),
{
    let mut n: u64 = 0;
    let mut i: usize = 0;
    while i < oks.len()
        invariant
            0 <= i <= oks@.len(),
            n as nat == passed(oks@.take(i as int)),
            n <= i,
        decreases oks@.len() - i,
    {
        proof {
            assert(oks@.take(i + 1).drop_last() == oks@.take(i as int));
        }
        if oks[i] {
            n = n + 1;
        }
        i = i + 1;
    }
    proof {
        assert(oks@.take(i as int) == oks@);
    }
    n
}

/// `<passed>/<total>`.
pub open spec fn tally(oks: Seq<bool>) -> Seq<char> {
    decimal_text(passed(oks)) + seq!['/'] + decimal_text(oks.len())
}

fn push_tally(v: &mut Vec<char>, oks: &Vec<bool>)
    ensures
        final(v)@ == old(v)@ + tally(oks@),
{
    let n = count_passed(oks);
    push_decimal(v, n);
    v.push('/');
    push_decimal(v, oks.len() as u64);
    assert(final(v)@ =~= old(v)@ + tally(oks@));
}

/// The one-line summary of the port checks, e.g. `Ports: TCP 3/3, UDP 2/3`.
pub fn ports_stage_message(tcp_ok: &Vec<bool>, udp_ok: &Vec<bool>) -> (s: String)
    ensures
        s@ == "Ports: TCP "@ + tally(tcp_ok@) + ", UDP "@ + tally(udp_ok@),
{
    let mut v: Vec<char> = Vec::new();
    append_str(&mut v, "Ports: TCP ");
    push_tally(&mut v, tcp_ok);
    append_str(&mut v, ", UDP ");
    push_tally(&mut v, udp_ok);
    string_of(&v)
}

/// The text report of the port checks.
pub fn ports_summary(source: &str, tcp_ok: &Vec<bool>, udp_ok: &Vec<bool>) -> (s: String)
    ensures
        s@ == "Endpoint source: "@ + source@ + "\nTCP checks: "@ + tally(tcp_ok@) + " passed\nUDP checks: "@
            + tally(udp_ok@) + " passed"@,
{
    let mut v: Vec<char> = Vec::new();
    append_str(&mut v, "Endpoint source: ");
    append_str(&mut v, source);
    append_str(&mut v, "\nTCP checks: ");
    push_tally(&mut v, tcp_ok);
    append_str(&mut v, " passed\nUDP checks: ");
    push_tally(&mut v, udp_ok);
    append_str(&mut v, " passed");
    string_of(&v)
}

// ---------------------------------------------------------------------------
// Laws of host discovery.
// ---------------------------------------------------------------------------

/// Every host is non-empty and none is listed twice.
pub open spec fn distinct_hosts(hs: Seq<Seq<char>>) -> bool {
    &&& forall|i: int| 0 <= i < hs.len() ==> (#[trigger] hs[i]).len() > 0
    &&& forall|i: int, j: int| 0 <= i < j < hs.len() ==> hs[i] != hs[j]
}

/// The host comes from a URL of a Teams core entry.
pub open spec fn from_teams_entry(endpoints: Seq<EndpointView>, host: Seq<char>) -> bool {
    exists|k: int, u: int|
        0 <= k < endpoints.len() && is_teams_core(endpoints[k]) && 0 <= u < url_list(
            endpoints[k],
        ).len() && #[trigger] host_of_url(url_list(endpoints[k])[u]) == host
}

proof fn lemma_add_url_hosts(hs: Seq<Seq<char>>, urls: Seq<Seq<char>>)
    requires
        distinct_hosts(hs),
    ensures
        distinct_hosts(add_url_hosts(hs, urls)),
        hs.len() <= add_url_hosts(hs, urls).len(),
        forall|i: int| 0 <= i < hs.len() ==> add_url_hosts(hs, urls)[i] == hs[i],
        forall|i: int|
            #![trigger add_url_hosts(hs, urls)[i]]
            hs.len() <= i < add_url_hosts(hs, urls).len() ==> exists|u: int|
                0 <= u < urls.len() && #[trigger] host_of_url(urls[u]) == add_url_hosts(hs, urls)[i],
    decreases urls.len(),
{
    if urls.len() > 0 {
        let prev = add_url_hosts(hs, urls.drop_last());
        lemma_add_url_hosts(hs, urls.drop_last());
        let h = host_of_url(urls.last());
        let next = add_host(prev, h);
        if h.len() > 0 && !prev.contains(h) {
            assert forall|i: int, j: int| 0 <= i < j < next.len() implies next[i] != next[j] by {
                if j == prev.len() {
                    assert(prev[i] == next[i]);
                    if next[i] == next[j] {
                        assert(prev.contains(h));
                    }
                }
            }
            assert forall|i: int| #![trigger next[i]] hs.len() <= i < next.len() implies exists|u: int|
                0 <= u < urls.len() && #[trigger] host_of_url(urls[u]) == next[i] by {
                if i == prev.len() {
                    assert(host_of_url(urls[urls.len() - 1]) == next[i]);
                } else {
                    let u = choose|u: int|
                        0 <= u < urls.drop_last().len() && #[trigger] host_of_url(urls.drop_last()[u]) == prev[i];
                    assert(urls[u] == urls.drop_last()[u]);
                }
            }
        } else {
            assert forall|i: int| #![trigger next[i]] hs.len() <= i < next.len() implies exists|u: int|
                0 <= u < urls.len() && #[trigger] host_of_url(urls[u]) == next[i] by {
                let u = choose|u: int|
                    0 <= u < urls.drop_last().len() && #[trigger] host_of_url(urls.drop_last()[u]) == prev[i];
                assert(urls[u] == urls.drop_last()[u]);
            }
        }
    }
}

/// The signaling hosts are non-empty, none is listed twice, and each comes
/// from a URL of an entry that is Teams in the Optimize or Allow category.
pub proof fn law_signaling_hosts(endpoints: Seq<EndpointView>)
    ensures
        distinct_hosts(signaling_hosts(endpoints)),
        forall|i: int|
            0 <= i < signaling_hosts(endpoints).len() ==> from_teams_entry(
                endpoints,
                #[trigger] signaling_hosts(endpoints)[i],
            ),
    decreases endpoints.len(),
{
    if endpoints.len() > 0 {
        let rest = endpoints.drop_last();
        law_signaling_hosts(rest);
        let before = signaling_hosts(rest);
        let e = endpoints.last();
        let last = endpoints.len() - 1;
        assert forall|i: int| 0 <= i < before.len() implies from_teams_entry(
            endpoints,
            #[trigger] before[i],
        ) by {
            assert(from_teams_entry(rest, before[i]));
            let (k, u) = choose|k: int, u: int|
                0 <= k < rest.len() && is_teams_core(rest[k]) && 0 <= u < url_list(rest[k]).len()
                    && #[trigger] host_of_url(url_list(rest[k])[u]) == before[i];
            assert(rest[k] == endpoints[k]);
        }
        if is_teams_core(e) {
            lemma_add_url_hosts(before, url_list(e));
            let after = signaling_hosts(endpoints);
            assert forall|i: int| 0 <= i < after.len() implies from_teams_entry(
                endpoints,
                #[trigger] after[i],
            ) by {
                if i < before.len() {
                    assert(after[i] == before[i]);
                } else {
                    let u = choose|u: int|
                        0 <= u < url_list(e).len() && #[trigger] host_of_url(url_list(e)[u]) == after[i];
                    assert(endpoints[last] == e);
                    assert(host_of_url(url_list(endpoints[last])[u]) == after[i]);
                }
            }
        }
    }
}

/// The TCP hosts to check always include `teams.microsoft.com`, hold at
/// least two hosts, and list none twice, whatever the endpoint service said.
pub proof fn law_discovered_hosts(fetched: Option<Seq<EndpointView>>)
    ensures
        discovered_hosts(fetched).0.contains(teams_host()),
        discovered_hosts(fetched).0.len() >= 2,
        distinct_hosts(discovered_hosts(fetched).0),
{
    reveal_strlit("teams.microsoft.com");
    reveal_strlit("lync.com");
    reveal_strlit("teams.cloud.microsoft");
    let fb = fallback_hosts();
    assert(fb[0] == teams_host());
    assert(fb[0].len() == 19 && fb[1].len() == 8 && fb[2].len() == 21);
    assert(distinct_hosts(fb));
    match fetched {
        Some(eps) => {
            law_signaling_hosts(eps);
            let found = signaling_hosts(eps);
            if !found.contains(teams_host()) {
                let hosts = seq![teams_host()] + found;
                assert(hosts[0] == teams_host());
                assert forall|i: int, j: int| 0 <= i < j < hosts.len() implies hosts[i] != hosts[j] by {
                    if i == 0 {
                        assert(hosts[j] == found[j - 1]);
                    } else {
                        assert(hosts[i] == found[i - 1] && hosts[j] == found[j - 1]);
                    }
                }
                assert forall|i: int| 0 <= i < hosts.len() implies (#[trigger] hosts[i]).len() > 0 by {
                    if i > 0 {
                        assert(hosts[i] == found[i - 1]);
                    }
                }
            }
        },
        None => {},
    }
}

proof fn lemma_split_pieces_lack_separator(s: Seq<char>, sep: char)
    ensures
        forall|k: int|
            0 <= k < split_scan(s, sep).0.len() ==> !(#[trigger] split_scan(s, sep).0[k]).contains(sep),
        !split_scan(s, sep).1.contains(sep),
    decreases s.len(),
{
    if s.len() > 0 {
        lemma_split_pieces_lack_separator(s.drop_last(), sep);
        let (done, cur) = split_scan(s.drop_last(), sep);
        if s.last() == sep {
            assert forall|k: int|
                0 <= k < split_scan(s, sep).0.len() implies !(#[trigger] split_scan(s, sep).0[k]).contains(
                sep,
            ) by {
                if k < done.len() {
                    assert(split_scan(s, sep).0[k] == done[k]);
                }
            }
            assert(split_scan(s, sep).1 =~= Seq::<char>::empty());
        } else {
            let next = cur.push(s.last());
            assert forall|j: int| 0 <= j < next.len() implies next[j] != sep by {
                if j < cur.len() {
                    assert(next[j] == cur[j]);
                    if cur[j] == sep {
                        assert(cur.contains(sep));
                    }
                }
            }
        }
    }
}

proof fn lemma_strip_prefix_all(s: Seq<char>, p: Seq<char>, c: char)
    requires
        p.len() > 0,
        !s.contains(c),
    ensures
        !strip_prefix_all(s, p).contains(c),
        !starts_with(strip_prefix_all(s, p), p),
    decreases s.len(),
{
    if starts_with(s, p) {
        let t = s.skip(p.len() as int);
        assert forall|j: int| 0 <= j < t.len() implies t[j] != c by {
            assert(t[j] == s[j + p.len()]);
        }
        lemma_strip_prefix_all(t, p, c);
    }
}

/// A host taken from an endpoint URL holds no `/` and does not start with `*.`.
pub open spec fn bare_host(h: Seq<char>) -> bool {
    !h.contains('/') && !starts_with(h, "*."@)
}

proof fn lemma_host_of_url_is_bare(url: Seq<char>)
    ensures
        bare_host(host_of_url(url)),
{
    reveal_strlit("*.");
    let no_scheme = strip_prefix_all(strip_prefix_all(url, "https://"@), "http://"@);
    let pieces = split_char(no_scheme, '/');
    lemma_split_pieces_lack_separator(no_scheme, '/');
    let (done, cur) = split_scan(no_scheme, '/');
    if done.len() > 0 {
        assert(pieces[0] == done[0]);
    } else {
        assert(pieces[0] == cur);
    }
    assert(!pieces[0].contains('/'));
    lemma_strip_prefix_all(pieces[0], "*."@, '/');
}

/// Every signaling host is a bare host name: the scheme, the path and any
/// wildcard label are gone.
pub proof fn law_signaling_hosts_are_bare(endpoints: Seq<EndpointView>)
    ensures
        forall|i: int|
            0 <= i < signaling_hosts(endpoints).len() ==> bare_host(#[trigger] signaling_hosts(endpoints)[i]),
{
    law_signaling_hosts(endpoints);
    assert forall|i: int| 0 <= i < signaling_hosts(endpoints).len() implies bare_host(
        #[trigger] signaling_hosts(endpoints)[i],
    ) by {
        let h = signaling_hosts(endpoints)[i];
        assert(from_teams_entry(endpoints, h));
        let (k, u) = choose|k: int, u: int|
            0 <= k < endpoints.len() && is_teams_core(endpoints[k]) && 0 <= u < url_list(
                endpoints[k],
            ).len() && #[trigger] host_of_url(url_list(endpoints[k])[u]) == h;
        lemma_host_of_url_is_bare(url_list(endpoints[k])[u]);
    }
}

/// The UDP probes are planned host by host, in order: a host other than
/// stun.cloudflare.com is probed on port 3478 and then on port 19302;
/// stun.cloudflare.com only on port 3478; no hosts give no probes.
pub proof fn law_udp_probe_ports(hosts: Seq<Seq<char>>, host: Seq<char>)
    ensures
        udp_plan(seq![]) == Seq::<(Seq<char>, u16)>::empty(),
        host != "stun.cloudflare.com"@ ==> udp_plan(hosts.push(host)) == udp_plan(hosts) + seq![
            (host, 3478u16),
            (host, 19302u16),
        ],
        host == "stun.cloudflare.com"@ ==> udp_plan(hosts.push(host)) == udp_plan(hosts) + seq![
            (host, 3478u16),
        ],
{
    let all = hosts.push(host);
    assert(all.drop_last() == hosts);
    assert(all.last() == host);
    if host != "stun.cloudflare.com"@ {
        assert(stun_ports_view(host).map_values(|p: u16| (host, p)) =~= seq![
            (host, 3478u16),
            (host, 19302u16),
        ]);
    } else {
        assert(stun_ports_view(host).map_values(|p: u16| (host, p)) =~= seq![(host, 3478u16)]);
    }
}

/// When the endpoint service's Teams core entries give at least one host,
/// those hosts are checked as they are, with teams.microsoft.com put in front
/// only when they lack it, and the source is the endpoint service, provided
/// the list then holds at least two hosts; the static fallback
/// (teams.microsoft.com, lync.com, teams.cloud.microsoft) is used only when
/// the service could not be read or that list holds at most one host.
pub proof fn law_discovery_uses_service_hosts(fetched: Option<Seq<EndpointView>>)
    ensures
        fetched matches Some(eps) ==> {
            let found = signaling_hosts(eps);
            &&& (found.contains("teams.microsoft.com"@) && found.len() >= 2) ==> discovered_hosts(fetched)
                == (found, "Microsoft 365 endpoint service"@)
            &&& (!found.contains("teams.microsoft.com"@) && found.len() >= 1) ==> discovered_hosts(
                fetched,
            ) == (seq!["teams.microsoft.com"@] + found, "Microsoft 365 endpoint service"@)
            &&& ((found.contains("teams.microsoft.com"@) && found.len() <= 1) || found.len() == 0)
                ==> discovered_hosts(fetched) == (
                seq!["teams.microsoft.com"@, "lync.com"@, "teams.cloud.microsoft"@],
                "static fallback"@,
            )
        },
        fetched is None ==> discovered_hosts(fetched) == (
            seq!["teams.microsoft.com"@, "lync.com"@, "teams.cloud.microsoft"@],
            "static fallback"@,
        ),
{
    match fetched {
        Some(eps) => {
            let found = signaling_hosts(eps);
            if !found.contains(teams_host()) {
                assert((seq![teams_host()] + found).len() == found.len() + 1);
            }
        },
        None => {},
    }
}

} // verus!
