//! The HTML report: escaping, status badges, table rows and the page.
//!
//! Measured values arrive already written with two decimals; the page is laid
//! out here.
use vstd::prelude::*;
use crate::text::{
    append_str, chars_of, contains, decimal_text, matches_at, push_decimal, starts_with, string_of,
};

verus! {

/// How a measurement compares with its threshold.
#[derive(Clone, Copy, Debug, PartialEq, Eq, Structural)]
pub enum Status {
    Pass,
    Warn,
    Fail,
}

pub open spec fn status_name(s: Status) -> Seq<char> {
    match s {
        Status::Pass => "pass"@,
        Status::Warn => "warn"@,
        Status::Fail => "fail"@,
    }
}

impl Status {
    /// The status as written in the page: `pass`, `warn` or `fail`.
    pub fn name(&self) -> (r: &'static str)
        ensures
            r@ == status_name(*self),
    {
        match self {
            Status::Pass => "pass",
            Status::Warn => "warn",
            Status::Fail => "fail",
        }
    }
}

// ---------------------------------------------------------------------------
// Escaping.
// ---------------------------------------------------------------------------

/// The HTML form of one character: `&`, `<`, `>` and `"` become entities.
pub open spec fn escape_char(c: char) -> Seq<char> {
    if c == '&' {
        seq!['&', 'a', 'm', 'p', ';']
    } else if c == '<' {
        seq!['&', 'l', 't', ';']
    } else if c == '>' {
        seq!['&', 'g', 't', ';']
    } else if c == '"' {
        seq!['&', 'q', 'u', 'o', 't', ';']
    } else {
        seq![c]
    }
}

/// Text made safe to place in HTML content or a quoted attribute.
pub open spec fn escape_html(s: Seq<char>) -> Seq<char>
    decreases s.len(),
{
    if s.len() == 0 {
        seq![]
    } else {
        escape_html(s.drop_last()) + escape_char(s.last())
    }
}

fn push_escaped(out: &mut Vec<char>, s: &str)
    ensures
        final(out)@ == old(out)@ + escape_html(s@),
{
    let v = chars_of(s);
    let mut i: usize = 0;
    while i < v.len()
        invariant
            v@ == s@,
            0 <= i <= v@.len(),
            out@ == old(out)@ + escape_html(v@.take(i as int)),
        decreases v@.len() - i,
    {
        let c = v[i];
        proof {
            assert(v@.take(i + 1).drop_last() == v@.take(i as int));
            assert(v@.take(i + 1).last() == c);
        }
        let ghost before = out@;
        if c == '&' {
            out.push('&');
            out.push('a');
            out.push('m');
            out.push('p');
            out.push(';');
        } else if c == '<' {
            out.push('&');
            out.push('l');
            out.push('t');
            out.push(';');
        } else if c == '>' {
            out.push('&');
            out.push('g');
            out.push('t');
            out.push(';');
        } else if c == '"' {
            out.push('&');
            out.push('q');
            out.push('u');
            out.push('o');
            out.push('t');
            out.push(';');
        } else {
            out.push(c);
        }
        proof {
            assert(out@ =~= before + escape_char(c));
            assert(old(out)@ + escape_html(v@.take(i + 1)) =~= old(out)@ + escape_html(v@.take(i as int))
                + escape_char(c));
        }
        i = i + 1;
    }
    proof {
        assert(v@.take(i as int) == v@);
    }
}

/// Escapes `&`, `<`, `>` and `"` for HTML.
pub fn esc(value: &str) -> (r: String)
    ensures
        r@ == escape_html(value@),
{
    let mut out: Vec<char> = Vec::new();
    push_escaped(&mut out, value);
    assert(out@ =~= escape_html(value@));
    string_of(&out)
}

// ---------------------------------------------------------------------------
// Badges and rows.
// ---------------------------------------------------------------------------

pub open spec fn badge_text(status: Seq<char>) -> Seq<char> {
    "<span class=\"badge "@ + status + "\">"@ + status + "</span>"@
}

fn push_badge(out: &mut Vec<char>, status: &str)
    ensures
        final(out)@ == old(out)@ + badge_text(status@),
{
    append_str(out, "<span class=\"badge ");
    append_str(out, status);
    append_str(out, "\">");
    append_str(out, status);
    append_str(out, "</span>");
    assert(final(out)@ =~= old(out)@ + badge_text(status@));
}

/// A status badge, styled by its class.
pub fn badge(status: &str) -> (r: String)
    ensures
        r@ == badge_text(status@),
{
    let mut out: Vec<char> = Vec::new();
    push_badge(&mut out, status);
    assert(out@ =~= badge_text(status@));
    string_of(&out)
}

/// One ping target: average and jitter in ms and loss in percent, written
/// with two decimals, and the loss and jitter statuses.
pub struct PingRow {
    pub target: String,
    pub average: String,
    pub jitter: String,
    pub loss: String,
    pub loss_status: Status,
    pub jitter_status: Status,
}

/// One TCP signaling check.
pub struct TcpRow {
    pub host: String,
    pub port: u16,
    pub ok: bool,
}

/// One UDP (STUN) check: the round-trip time in ms with two decimals when the
/// check passed, and the status of that time against its threshold.
pub struct UdpRow {
    pub host: String,
    pub port: u16,
    pub reflexive_address: Option<String>,
    pub rtt: Option<String>,
    pub ok: bool,
    pub rtt_status: Status,
}

pub open spec fn ping_row_text(r: PingRow) -> Seq<char> {
    "<tr><td>"@ + escape_html(r.target@) + "</td><td>"@ + r.average@ + " ms</td><td>"@ + r.jitter@
        + " ms</td><td>"@ + r.loss@ + "% "@ + badge_text(status_name(r.loss_status)) + "</td><td>"@
        + badge_text(status_name(r.jitter_status)) + "</td></tr>"@
}

pub open spec fn pass_fail(ok: bool) -> Status {
    if ok {
        Status::Pass
    } else {
        Status::Fail
    }
}

pub open spec fn tcp_row_text(r: TcpRow) -> Seq<char> {
    "<tr><td>"@ + escape_html(r.host@) + "</td><td>"@ + decimal_text(r.port as nat) + "</td><td>"@
        + badge_text(status_name(pass_fail(r.ok))) + "</td></tr>"@
}

pub open spec fn dash() -> Seq<char> {
    "—"@
}

pub open spec fn udp_row_text(r: UdpRow) -> Seq<char> {
    "<tr><td>"@ + escape_html(r.host@) + "</td><td>"@ + decimal_text(r.port as nat) + "</td><td>"@
        + address_cell(r) + "</td><td>"@ + rtt_cell(r) + "</td><td>"@ + badge_text(
        status_name(udp_status(r)),
    ) + "</td></tr>"@
}

/// The reflexive address, or a dash when there is none.
pub open spec fn address_cell(r: UdpRow) -> Seq<char> {
    match r.reflexive_address {
        Some(a) => a@,
        None => dash(),
    }
}

/// The round-trip time in ms, or a dash when there is none.
pub open spec fn rtt_cell(r: UdpRow) -> Seq<char> {
    match r.rtt {
        Some(t) => t@ + " ms"@,
        None => dash(),
    }
}

/// A failed check is a failure; a passed one is judged by its round-trip time.
pub open spec fn udp_status(r: UdpRow) -> Status {
    if r.ok {
        r.rtt_status
    } else {
        Status::Fail
    }
}

fn push_ping_row(out: &mut Vec<char>, r: &PingRow)
    ensures
        final(out)@ == old(out)@ + ping_row_text(*r),
{
    append_str(out, "<tr><td>");
    push_escaped(out, r.target.as_str());
    append_str(out, "</td><td>");
    append_str(out, r.average.as_str());
    append_str(out, " ms</td><td>");
    append_str(out, r.jitter.as_str());
    append_str(out, " ms</td><td>");
    append_str(out, r.loss.as_str());
    append_str(out, "% ");
    push_badge(out, r.loss_status.name());
    append_str(out, "</td><td>");
    push_badge(out, r.jitter_status.name());
    append_str(out, "</td></tr>");
    assert(final(out)@ =~= old(out)@ + ping_row_text(*r));
}

fn push_tcp_row(out: &mut Vec<char>, r: &TcpRow)
    ensures
        final(out)@ == old(out)@ + tcp_row_text(*r),
{
    append_str(out, "<tr><td>");
    push_escaped(out, r.host.as_str());
    append_str(out, "</td><td>");
    push_decimal(out, r.port as u64);
    append_str(out, "</td><td>");
    let status = if r.ok {
        Status::Pass
    } else {
        Status::Fail
    };
    push_badge(out, status.name());
    append_str(out, "</td></tr>");
    assert(final(out)@ =~= old(out)@ + tcp_row_text(*r));
}

fn push_address_cell(out: &mut Vec<char>, r: &UdpRow)
    ensures
        final(out)@ == old(out)@ + address_cell(*r),
{
    match &r.reflexive_address {
        Some(a) => append_str(out, a.as_str()),
        None => append_str(out, "—"),
    }
}

fn push_rtt_cell(out: &mut Vec<char>, r: &UdpRow)
    ensures
        final(out)@ == old(out)@ + rtt_cell(*r),
{
    match &r.rtt {
        Some(t) => {
            append_str(out, t.as_str());
            append_str(out, " ms");
            assert(final(out)@ =~= old(out)@ + rtt_cell(*r));
        },
        None => append_str(out, "—"),
    }
}

fn push_udp_row(out: &mut Vec<char>, r: &UdpRow)
    ensures
        final(out)@ == old(out)@ + udp_row_text(*r),
{
    let ghost o = out@;
    append_str(out, "<tr><td>");
    push_escaped(out, r.host.as_str());
    append_str(out, "</td><td>");
    push_decimal(out, r.port as u64);
    append_str(out, "</td><td>");
    let ghost head = out@;
    push_address_cell(out, r);
    append_str(out, "</td><td>");
    push_rtt_cell(out, r);
    append_str(out, "</td><td>");
    let ghost middle = out@;
    let status = if r.ok {
        r.rtt_status
    } else {
        Status::Fail
    };
    push_badge(out, status.name());
    append_str(out, "</td></tr>");
    proof {
        assert(head =~= o + "<tr><td>"@ + escape_html(r.host@) + "</td><td>"@ + decimal_text(
            r.port as nat,
        ) + "</td><td>"@);
        assert(middle =~= head + address_cell(*r) + "</td><td>"@ + rtt_cell(*r) + "</td><td>"@);
        assert(out@ =~= middle + badge_text(status_name(udp_status(*r))) + "</td></tr>"@);
        assert(out@ =~= o + udp_row_text(*r));
    }
}

pub open spec fn ping_rows_text(rows: Seq<PingRow>) -> Seq<char>
    decreases rows.len(),
{
    if rows.len() == 0 {
        seq![]
    } else {
        ping_rows_text(rows.drop_last()) + ping_row_text(rows.last())
    }
}

pub open spec fn tcp_rows_text(rows: Seq<TcpRow>) -> Seq<char>
    decreases rows.len(),
{
    if rows.len() == 0 {
        seq![]
    } else {
        tcp_rows_text(rows.drop_last()) + tcp_row_text(rows.last())
    }
}

pub open spec fn udp_rows_text(rows: Seq<UdpRow>) -> Seq<char>
    decreases rows.len(),
{
    if rows.len() == 0 {
        seq![]
    } else {
        udp_rows_text(rows.drop_last()) + udp_row_text(rows.last())
    }
}

fn push_ping_rows(out: &mut Vec<char>, rows: &Vec<PingRow>)
    ensures
        final(out)@ == old(out)@ + ping_rows_text(rows@),
{
    let mut i: usize = 0;
    while i < rows.len()
        invariant
            0 <= i <= rows@.len(),
            out@ == old(out)@ + ping_rows_text(rows@.take(i as int)),
        decreases rows@.len() - i,
    {
        proof {
            assert(rows@.take(i + 1).drop_last() == rows@.take(i as int));
        }
        push_ping_row(out, &rows[i]);
        proof {
            assert(out@ =~= old(out)@ + ping_rows_text(rows@.take(i + 1)));
        }
        i = i + 1;
    }
    proof {
        assert(rows@.take(i as int) == rows@);
    }
}

fn push_tcp_rows(out: &mut Vec<char>, rows: &Vec<TcpRow>)
    ensures
        final(out)@ == old(out)@ + tcp_rows_text(rows@),
{
    let mut i: usize = 0;
    while i < rows.len()
        invariant
            0 <= i <= rows@.len(),
            out@ == old(out)@ + tcp_rows_text(rows@.take(i as int)),
        decreases rows@.len() - i,
    {
        proof {
            assert(rows@.take(i + 1).drop_last() == rows@.take(i as int));
        }
        push_tcp_row(out, &rows[i]);
        proof {
            assert(out@ =~= old(out)@ + tcp_rows_text(rows@.take(i + 1)));
        }
        i = i + 1;
    }
    proof {
        assert(rows@.take(i as int) == rows@);
    }
}

fn push_udp_rows(out: &mut Vec<char>, rows: &Vec<UdpRow>)
    ensures
        final(out)@ == old(out)@ + udp_rows_text(rows@),
{
    let mut i: usize = 0;
    while i < rows.len()
        invariant
            0 <= i <= rows@.len(),
            out@ == old(out)@ + udp_rows_text(rows@.take(i as int)),
        decreases rows@.len() - i,
    {
        proof {
            assert(rows@.take(i + 1).drop_last() == rows@.take(i as int));
        }
        push_udp_row(out, &rows[i]);
        proof {
            assert(out@ =~= old(out)@ + udp_rows_text(rows@.take(i + 1)));
        }
        i = i + 1;
    }
    proof {
        assert(rows@.take(i as int) == rows@);
    }
}

// ---------------------------------------------------------------------------
// Embedding the raw results.
// ---------------------------------------------------------------------------

/// `</script`, which would end the script element that holds the raw results.
pub open spec fn script_close() -> Seq<char> {
    seq!['<', '/', 's', 'c', 'r', 'i', 'p', 't']
}

/// `<\/script`, the same text for a JSON reader but not for HTML.
pub open spec fn escaped_script_close() -> Seq<char> {
    seq!['<', '\\', '/', 's', 'c', 'r', 'i', 'p', 't']
}

/// `str::replace`: every occurrence of `pat`, scanning left to right without
/// overlap, replaced by `rep`.
pub open spec fn replace_all(s: Seq<char>, pat: Seq<char>, rep: Seq<char>) -> Seq<char>
    decreases s.len(),
{
    if s.len() == 0 || pat.len() == 0 {
        s
    } else if starts_with(s, pat) {
        rep + replace_all(s.skip(pat.len() as int), pat, rep)
    } else {
        seq![s[0]] + replace_all(s.skip(1), pat, rep)
    }
}

/// JSON text made safe to place inside a `<script>` element.
pub open spec fn script_safe(json: Seq<char>) -> Seq<char> {
    replace_all(json, script_close(), escaped_script_close())
}

fn push_script_safe(out: &mut Vec<char>, json: &str)
    ensures
        final(out)@ == old(out)@ + script_safe(json@),
{
    let v = chars_of(json);
    let mut i: usize = 0;
    proof {
        assert(v@.skip(0) == v@);
    }
    while i < v.len()
        invariant
            v@ == json@,
            0 <= i <= v@.len(),
            old(out)@ + script_safe(json@) == out@ + script_safe(v@.skip(i as int)),
        decreases v@.len() - i,
    {
        let ghost rest = v@.skip(i as int);
        let ghost before = out@;
        if 8 <= v.len() - i && v[i] == '<' && v[i + 1] == '/' && v[i + 2] == 's' && v[i + 3] == 'c'
            && v[i + 4] == 'r' && v[i + 5] == 'i' && v[i + 6] == 'p' && v[i + 7] == 't' {
            out.push('<');
            out.push('\\');
            out.push('/');
            out.push('s');
            out.push('c');
            out.push('r');
            out.push('i');
            out.push('p');
            out.push('t');
            proof {
                assert forall|k: int| 0 <= k < 8 implies #[trigger] rest[0 + k] == script_close()[k] by {
                    assert(rest[k] == v@[i + k]);
                }
                assert(starts_with(rest, script_close()));
                assert(rest.skip(8) == v@.skip(i + 8));
                assert(out@ =~= before + escaped_script_close());
            }
            i = i + 8;
        } else {
            proof {
                if starts_with(rest, script_close()) {
                    let z: int = 0;
                    assert(rest[z + 0] == '<');
                    assert(rest[z + 1] == '/');
                    assert(rest[z + 2] == 's');
                    assert(rest[z + 3] == 'c');
                    assert(rest[z + 4] == 'r');
                    assert(rest[z + 5] == 'i');
                    assert(rest[z + 6] == 'p');
                    assert(rest[z + 7] == 't');
                    assert(false);
                }
                assert(rest.skip(1) == v@.skip(i + 1));
            }
            out.push(v[i]);
            proof {
                assert(out@ =~= before + seq![rest[0]]);
            }
            i = i + 1;
        }
    }
    proof {
        assert(v@.skip(i as int).len() == 0);
        assert(out@ =~= out@ + script_safe(v@.skip(i as int)));
    }
}

/// Replaces every `</script` in JSON text by `<\/script`.
pub fn script_safe_json(json: &str) -> (r: String)
    ensures
        r@ == script_safe(json@),
{
    let mut out: Vec<char> = Vec::new();
    push_script_safe(&mut out, json);
    assert(out@ =~= script_safe(json@));
    string_of(&out)
}

// ---------------------------------------------------------------------------
// The page.
// ---------------------------------------------------------------------------

/// The page up to the ping rows: styles, headings and the ping table header.
pub const PAGE_HEAD: &'static str = "<!doctype html><html><head><meta charset=\"utf-8\"><title>Network Report</title><style>body{font:15px system-ui,sans-serif;max-width:1100px;margin:2rem auto;padding:0 1rem;background:#16191d;color:#e2e6ea}table{border-collapse:collapse;width:100%;margin:1rem 0 2rem}td,th{border:1px solid #363d45;padding:.5rem;text-align:left}th{background:#232830}small{color:#9aa4ae}.badge{border-radius:4px;padding:.15rem .45rem;text-transform:uppercase;font-size:.75rem;font-weight:700}.pass{background:#14532d;color:#86efac}.warn{background:#713f12;color:#fde047}.fail{background:#7f1d1d;color:#fca5a5}code{white-space:pre-wrap}</style></head><body><h1>Network report</h1><p>Teams-focused network assessment.</p><p><em>This is a prototype — results and heuristics are subject to change.</em></p><h2>Ping</h2><table><tr><th>Target</th><th>Average</th><th>Jitter (stddev)</th><th>Loss</th><th>Status</th></tr>";

/// Between the ping rows and the endpoint source.
pub const AFTER_PING_ROWS: &'static str = "</table><h2>Teams ports</h2><p>Endpoint source: ";

/// Between the endpoint source and the TCP rows.
pub const AFTER_SOURCE: &'static str = "</p><h3>TCP signaling</h3><table><tr><th>Host</th><th>Port</th><th>Status</th></tr>";

/// Between the TCP rows and the UDP note.
pub const AFTER_TCP_ROWS: &'static str = "</table><h3>UDP media egress (STUN)</h3><p><small>";

/// Between the UDP note and the UDP rows.
pub const AFTER_NOTE: &'static str = "</small></p><table><tr><th>Host</th><th>Port</th><th>Reflexive address</th><th>RTT</th><th>Status</th></tr>";

/// Between the UDP rows and the download rate.
pub const AFTER_UDP_ROWS: &'static str = "</table><h2>Bandwidth</h2><p>Download: <strong>";

/// Between the download and the upload rate.
pub const AFTER_DOWNLOAD: &'static str = " Mbps</strong> · Upload: <strong>";

/// Between the upload rate and the bandwidth badge.
pub const AFTER_UPLOAD: &'static str = " Mbps</strong> ";

/// Between the bandwidth badge and the stress table, with the throughput caveat.
pub const AFTER_BANDWIDTH_BADGE: &'static str = "</p><p><small>Metric is macOS networkQuality download/upload throughput; may underreport versus fast.com/Ookla because methodologies and server selection differ.</small></p><h2>Stress / bufferbloat</h2><table>";

/// The stress table's header row and the opening of its data row.
pub const STRESS_TABLE_HEAD: &'static str = "<tr><th>Idle</th><th>Loaded</th><th>Delta</th><th>Grade</th></tr><tr><td>";

/// After each latency figure of the stress table.
pub const MS_CELL_BREAK: &'static str = " ms</td><td>";

/// Between the grade and the raw results.
pub const AFTER_GRADE: &'static str = "</td></tr></table><h2>Raw results</h2><script type=\"application/json\" id=\"netburn-results\">";

/// The end of the page.
pub const PAGE_TAIL: &'static str = "</script></body></html>";

/// Everything the page shows. Rates are in Mbps and latencies in ms, written
/// with two decimals; `json` is the raw results as JSON text.
pub struct Report {
    pub ping: Vec<PingRow>,
    pub tcp: Vec<TcpRow>,
    pub udp: Vec<UdpRow>,
    pub endpoint_source: String,
    pub note: String,
    pub download: String,
    pub upload: String,
    /// Both rates reach the bandwidth threshold.
    pub bandwidth_ok: bool,
    pub idle: String,
    pub loaded: String,
    pub delta: String,
    pub grade: String,
    pub json: String,
}

pub open spec fn bandwidth_status(ok: bool) -> Status {
    if ok {
        Status::Pass
    } else {
        Status::Warn
    }
}

/// The ping and ports sections.
pub open spec fn page_checks(r: Report) -> Seq<char> {
    PAGE_HEAD@ + ping_rows_text(r.ping@) + AFTER_PING_ROWS@ + escape_html(r.endpoint_source@)
        + AFTER_SOURCE@ + tcp_rows_text(r.tcp@) + AFTER_TCP_ROWS@ + escape_html(r.note@) + AFTER_NOTE@
        + udp_rows_text(r.udp@)
}

/// The bandwidth, stress and raw-results sections.
pub open spec fn page_measurements(r: Report) -> Seq<char> {
    AFTER_UDP_ROWS@ + r.download@ + AFTER_DOWNLOAD@ + r.upload@ + AFTER_UPLOAD@ + badge_text(
        status_name(bandwidth_status(r.bandwidth_ok)),
    ) + AFTER_BANDWIDTH_BADGE@ + STRESS_TABLE_HEAD@ + r.idle@ + MS_CELL_BREAK@ + r.loaded@ + MS_CELL_BREAK@ + r.delta@
        + MS_CELL_BREAK@ + escape_html(r.grade@) + AFTER_GRADE@ + script_safe(r.json@) + PAGE_TAIL@
}

/// The whole HTML page.
pub open spec fn page(r: Report) -> Seq<char> {
    page_checks(r) + page_measurements(r)
}

fn push_checks(out: &mut Vec<char>, r: &Report)
    ensures
        final(out)@ == old(out)@ + page_checks(*r),
{
    let ghost o = out@;
    append_str(out, PAGE_HEAD);
    push_ping_rows(out, &r.ping);
    append_str(out, AFTER_PING_ROWS);
    push_escaped(out, r.endpoint_source.as_str());
    append_str(out, AFTER_SOURCE);
    let ghost a = out@;
    push_tcp_rows(out, &r.tcp);
    append_str(out, AFTER_TCP_ROWS);
    push_escaped(out, r.note.as_str());
    append_str(out, AFTER_NOTE);
    push_udp_rows(out, &r.udp);
    proof {
        assert(a =~= o + PAGE_HEAD@ + ping_rows_text(r.ping@) + AFTER_PING_ROWS@ + escape_html(
            r.endpoint_source@,
        ) + AFTER_SOURCE@);
        assert(out@ =~= a + tcp_rows_text(r.tcp@) + AFTER_TCP_ROWS@ + escape_html(r.note@) + AFTER_NOTE@
            + udp_rows_text(r.udp@));
        assert(out@ =~= o + page_checks(*r));
    }
}

fn push_measurements(out: &mut Vec<char>, r: &Report)
    ensures
        final(out)@ == old(out)@ + page_measurements(*r),
{
    let ghost o = out@;
    append_str(out, AFTER_UDP_ROWS);
    append_str(out, r.download.as_str());
    append_str(out, AFTER_DOWNLOAD);
    append_str(out, r.upload.as_str());
    append_str(out, AFTER_UPLOAD);
    let status = if r.bandwidth_ok {
        Status::Pass
    } else {
        Status::Warn
    };
    push_badge(out, status.name());
    append_str(out, AFTER_BANDWIDTH_BADGE);
    append_str(out, STRESS_TABLE_HEAD);
    let ghost a = out@;
    append_str(out, r.idle.as_str());
    append_str(out, MS_CELL_BREAK);
    append_str(out, r.loaded.as_str());
    append_str(out, MS_CELL_BREAK);
    append_str(out, r.delta.as_str());
    append_str(out, MS_CELL_BREAK);
    let ghost b = out@;
    push_escaped(out, r.grade.as_str());
    append_str(out, AFTER_GRADE);
    push_script_safe(out, r.json.as_str());
    append_str(out, PAGE_TAIL);
    proof {
        assert(a =~= o + AFTER_UDP_ROWS@ + r.download@ + AFTER_DOWNLOAD@ + r.upload@ + AFTER_UPLOAD@
            + badge_text(status_name(bandwidth_status(r.bandwidth_ok))) + AFTER_BANDWIDTH_BADGE@ + STRESS_TABLE_HEAD@);
        assert(b =~= a + r.idle@ + MS_CELL_BREAK@ + r.loaded@ + MS_CELL_BREAK@ + r.delta@
            + MS_CELL_BREAK@);
        assert(out@ =~= b + escape_html(r.grade@) + AFTER_GRADE@ + script_safe(r.json@) + PAGE_TAIL@);
        assert(out@ =~= o + page_measurements(*r));
    }
}

/// Lays out the HTML report.
pub fn render_report(report: &Report) -> (html: String)
    ensures
        html@ == page(*report),
{
    let mut out: Vec<char> = Vec::new();
    push_checks(&mut out, report);
    push_measurements(&mut out, report);
    assert(out@ =~= page(*report));
    string_of(&out)
}

// ---------------------------------------------------------------------------
// Laws.
// ---------------------------------------------------------------------------

pub open spec fn markup_char(c: char) -> bool {
    c == '<' || c == '>' || c == '"'
}

/// Escaped text holds no `<`, `>` or `"`, so it cannot open or close a tag or
/// end a quoted attribute.
pub proof fn law_escaped_text_has_no_markup(s: Seq<char>)
    ensures
        forall|i: int| 0 <= i < escape_html(s).len() ==> !markup_char(#[trigger] escape_html(s)[i]),
    decreases s.len(),
{
    if s.len() > 0 {
        law_escaped_text_has_no_markup(s.drop_last());
        let before = escape_html(s.drop_last());
        let e = escape_char(s.last());
        assert forall|i: int| 0 <= i < escape_html(s).len() implies !markup_char(
            #[trigger] escape_html(s)[i],
        ) by {
            if i < before.len() {
                assert(escape_html(s)[i] == before[i]);
            } else {
                assert(escape_html(s)[i] == e[i - before.len()]);
            }
        }
    }
}

/// Text without `&`, `<`, `>` and `"` is shown as it is.
pub proof fn law_plain_text_unchanged(s: Seq<char>)
    requires
        forall|i: int| 0 <= i < s.len() ==> !markup_char(#[trigger] s[i]) && s[i] != '&',
    ensures
        escape_html(s) == s,
    decreases s.len(),
{
    if s.len() > 0 {
        assert(s.last() == s[s.len() - 1]);
        law_plain_text_unchanged(s.drop_last());
        assert(s.drop_last().push(s.last()) =~= s);
    }
}

proof fn lemma_replace_keeps_plain_prefix(t: Seq<char>, w: Seq<char>)
    requires
        forall|k: int| 0 <= k < w.len() ==> #[trigger] w[k] != '<',
        starts_with(replace_all(t, script_close(), escaped_script_close()), w),
    ensures
        starts_with(t, w),
    decreases w.len(),
{
    let r = replace_all(t, script_close(), escaped_script_close());
    if w.len() > 0 {
        let z: int = 0;
        assert(r[z + 0] == w[0]);
        if t.len() == 0 {
            assert(r.len() == 0);
        } else if starts_with(t, script_close()) {
            assert(r[0] == '<');
            assert(false);
        } else {
            let rest = replace_all(t.skip(1), script_close(), escaped_script_close());
            assert(r == seq![t[0]] + rest);
            assert forall|k: int| 0 <= k < w.skip(1).len() implies #[trigger] rest[0 + k] == w.skip(1)[k] by {
                assert(r[z + (k + 1)] == w[k + 1]);
            }
            lemma_replace_keeps_plain_prefix(t.skip(1), w.skip(1));
            assert forall|k: int| 0 <= k < w.len() implies #[trigger] t[0 + k] == w[k] by {
                if k > 0 {
                    assert(t.skip(1)[z + (k - 1)] == w.skip(1)[k - 1]);
                } else {
                    assert(r[z + 0] == t[0]);
                }
            }
        }
    }
}

/// The raw results placed in the page never contain `</script`, so they
/// cannot end their script element early.
pub proof fn law_script_safe_never_closes(json: Seq<char>)
    ensures
        !contains(script_safe(json), script_close()),
    decreases json.len(),
{
    let r = script_safe(json);
    let pat = script_close();
    let rep = escaped_script_close();
    if json.len() > 0 {
        if starts_with(json, pat) {
            let t = json.skip(8);
            law_script_safe_never_closes(t);
            let rest = script_safe(t);
            assert(r == rep + rest);
            assert forall|i: int| !#[trigger] matches_at(r, pat, i) by {
                if matches_at(r, pat, i) {
                    let z: int = 0;
                    if i == 0 {
                        assert(r[i + 1] == pat[1]);
                        assert(r[1] == '\\');
                    } else if i < 9 {
                        assert(r[i + 0] == pat[z + 0]);
                        assert(r[i] == rep[i]);
                    } else {
                        assert forall|k: int| 0 <= k < pat.len() implies #[trigger] rest[(i - 9) + k] == pat[k] by {
                            assert(r[i + k] == pat[k]);
                            assert(r[i + k] == rest[i + k - 9]);
                        }
                        assert(matches_at(rest, pat, i - 9));
                    }
                }
            }
        } else {
            let t = json.skip(1);
            law_script_safe_never_closes(t);
            let rest = script_safe(t);
            assert(r == seq![json[0]] + rest);
            assert forall|i: int| !#[trigger] matches_at(r, pat, i) by {
                if matches_at(r, pat, i) {
                    if i == 0 {
                        let w = pat.skip(1);
                        assert forall|k: int| 0 <= k < w.len() implies #[trigger] rest[0 + k] == w[k] by {
                            assert(r[i + (k + 1)] == pat[k + 1]);
                        }
                        lemma_replace_keeps_plain_prefix(t, w);
                        assert forall|k: int| 0 <= k < pat.len() implies #[trigger] json[0 + k] == pat[k] by {
                            if k > 0 {
                                assert(t[0 + (k - 1)] == w[k - 1]);
                            } else {
                                assert(r[i + 0] == pat[0]);
                            }
                        }
                        assert(starts_with(json, pat));
                    } else {
                        assert forall|k: int| 0 <= k < pat.len() implies #[trigger] rest[(i - 1) + k] == pat[k] by {
                            assert(r[i + k] == pat[k]);
                        }
                        assert(matches_at(rest, pat, i - 1));
                    }
                }
            }
        }
    }
}

proof fn lemma_regroup_stress(
    c: Seq<char>,
    a: Seq<char>,
    h: Seq<char>,
    idle: Seq<char>,
    m: Seq<char>,
    loaded: Seq<char>,
    delta: Seq<char>,
    g: Seq<char>,
    ag: Seq<char>,
    js: Seq<char>,
    t: Seq<char>,
)
    ensures
        c + (a + h + idle + m + loaded + m + delta + m + g + ag + js + t) == (c + a) + h + idle + m
            + loaded + m + delta + m + g + (ag + js + t),
{
    assert(c + (a + h + idle + m + loaded + m + delta + m + g + ag + js + t) =~= (c + a) + h + idle
        + m + loaded + m + delta + m + g + (ag + js + t));
}

/// The stress table shows, under its Idle, Loaded, Delta and Grade headings,
/// the report's idle latency, then its loaded latency, then the delta, each
/// followed by `ms`, then the escaped grade.
pub proof fn law_stress_table_columns(r: Report)
    ensures
        exists|before: Seq<char>, after: Seq<char>|
            page(r) == before + "<tr><th>Idle</th><th>Loaded</th><th>Delta</th><th>Grade</th></tr><tr><td>"@
                + r.idle@ + " ms</td><td>"@ + r.loaded@ + " ms</td><td>"@ + r.delta@ + " ms</td><td>"@
                + escape_html(r.grade@) + after,
{
    let a = AFTER_UDP_ROWS@ + r.download@ + AFTER_DOWNLOAD@ + r.upload@ + AFTER_UPLOAD@ + badge_text(
        status_name(bandwidth_status(r.bandwidth_ok)),
    ) + AFTER_BANDWIDTH_BADGE@;
    let h = "<tr><th>Idle</th><th>Loaded</th><th>Delta</th><th>Grade</th></tr><tr><td>"@;
    let m = " ms</td><td>"@;
    assert(STRESS_TABLE_HEAD@ == h);
    assert(MS_CELL_BREAK@ == m);
    let g = escape_html(r.grade@);
    let js = script_safe(r.json@);
    lemma_regroup_stress(page_checks(r), a, h, r.idle@, m, r.loaded@, r.delta@, g, AFTER_GRADE@, js, PAGE_TAIL@);
    let before = page_checks(r) + a;
    let after = AFTER_GRADE@ + js + PAGE_TAIL@;
    assert(page(r) == before + h + r.idle@ + m + r.loaded@ + m + r.delta@ + m + g + after);
}

} // verus!
