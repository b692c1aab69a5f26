//! Reading the summary that `ping` prints, and the choice of ping targets.
//!
//! Round-trip times and the loss percentage are kept as the decimal text that
//! `ping` printed; each such text is a floating-point literal.
use vstd::prelude::*;
use crate::text::{
    all_digits, chars_of, clone_chars, contains, contains_str, decimal_string, decimal_text,
    deep_views, eq_str, first_of, float_literal, is_float_literal, lemma_deep_views_push, lines,
    lines_exec, opt_view, parse_unsigned, parse_unsigned_exec, split_char, split_char_exec,
    starts_with, starts_with_str, string_of, trim, trim_end_char, trim_end_char_exec, trim_exec,
    trim_start, trim_start_exec, words, words_exec, is_digit, is_ws, lemma_decimal_text_digits,
    lemma_lines_single, lemma_words_at_space, lemma_words_single, law_decimal_round_trip,
    matches_at,
};

verus! {

/// The outcome of pinging one target.
pub struct PingResult {
    pub target: String,
    pub transmitted: u32,
    pub received: u32,
    /// Packet loss in percent, as printed ("100" when `ping` reported none).
    pub loss_percent: String,
    pub min_ms: Option<String>,
    pub avg_ms: Option<String>,
    pub max_ms: Option<String>,
    pub stddev_ms: Option<String>,
    pub error: Option<String>,
}

/// What the summary lines of `ping` establish.
pub struct PingSummary {
    pub transmitted: u32,
    pub received: u32,
    pub loss: Seq<char>,
    /// min, avg, max and stddev, present only all together.
    pub stats: Option<(Seq<char>, Seq<char>, Seq<char>, Seq<char>)>,
}

pub struct PingView {
    pub target: Seq<char>,
    pub transmitted: u32,
    pub received: u32,
    pub loss_percent: Seq<char>,
    pub min_ms: Option<Seq<char>>,
    pub avg_ms: Option<Seq<char>>,
    pub max_ms: Option<Seq<char>>,
    pub stddev_ms: Option<Seq<char>>,
    pub error: Option<Seq<char>>,
}

impl View for PingResult {
    type V = PingView;

    open spec fn view(&self) -> PingView {
        PingView {
            target: self.target@,
            transmitted: self.transmitted,
            received: self.received,
            loss_percent: self.loss_percent@,
            min_ms: opt_view(self.min_ms),
            avg_ms: opt_view(self.avg_ms),
            max_ms: opt_view(self.max_ms),
            stddev_ms: opt_view(self.stddev_ms),
            error: opt_view(self.error),
        }
    }
}

pub open spec fn full_loss() -> Seq<char> {
    seq!['1', '0', '0']
}

pub open spec fn empty_summary() -> PingSummary {
    PingSummary { transmitted: 0, received: 0, loss: full_loss(), stats: None }
}

/// The whitespace-separated fields of a line, trailing commas removed.
pub open spec fn count_fields(line: Seq<char>) -> Seq<Seq<char>> {
    Seq::new(words(line).len(), |i: int| trim_end_char(words(line)[i], ','))
}

/// The first window of three fields that reads `<n> packets <keyword>`, from `from` on.
pub open spec fn find_count(fields: Seq<Seq<char>>, keyword: Seq<char>, from: int) -> Option<int>
    decreases fields.len() - from,
{
    if from < 0 || from + 3 > fields.len() {
        None
    } else if fields[from + 1] == "packets"@ && fields[from + 2] == keyword {
        Some(from)
    } else {
        find_count(fields, keyword, from + 1)
    }
}

/// The number in front of `packets <keyword>`; 0 when there is none or it
/// does not read as a `u32`.
pub open spec fn count_for(fields: Seq<Seq<char>>, keyword: Seq<char>) -> u32 {
    match find_count(fields, keyword, 0) {
        Some(i) => match parse_unsigned(fields[i], u32::MAX as nat) {
            Some(v) => v as u32,
            None => 0,
        },
        None => 0,
    }
}

/// The first comma-separated part, from `from` on, that mentions `packet loss`.
pub open spec fn find_loss_part(parts: Seq<Seq<char>>, from: int) -> Option<int>
    decreases parts.len() - from,
{
    if from < 0 || from >= parts.len() {
        None
    } else if contains(parts[from], "packet loss"@) {
        Some(from)
    } else {
        find_loss_part(parts, from + 1)
    }
}

/// The loss figure in a part such as ` 0.0% packet loss`: the last word before
/// the first `%`, when it reads as a number; otherwise 100.
pub open spec fn loss_figure(part: Seq<char>) -> Seq<char> {
    let ws = words(split_char(part, '%')[0]);
    if ws.len() > 0 && float_literal(ws.last()) {
        ws.last()
    } else {
        full_loss()
    }
}

/// Reads a `... packets transmitted, ... received, ...% packet loss` line.
pub open spec fn apply_counts(st: PingSummary, line: Seq<char>) -> PingSummary {
    let fields = count_fields(line);
    let parts = split_char(line, ',');
    let loss = match find_loss_part(parts, 0) {
        Some(i) => loss_figure(parts[i]),
        None => st.loss,
    };
    PingSummary {
        transmitted: count_for(fields, "transmitted"@),
        received: count_for(fields, "received"@),
        loss: loss,
        stats: st.stats,
    }
}

/// For each `/`-separated piece, its first word when that reads as a number.
pub open spec fn stat_numbers(pieces: Seq<Seq<char>>) -> Seq<Seq<char>>
    decreases pieces.len(),
{
    if pieces.len() == 0 {
        seq![]
    } else {
        let before = stat_numbers(pieces.drop_last());
        let ws = words(pieces.last());
        if ws.len() > 0 && float_literal(ws[0]) {
            before.push(ws[0])
        } else {
            before
        }
    }
}

/// Reads the values after `=` on a `min/avg/max/stddev = a/b/c/d ms` line;
/// they are taken only when exactly four numbers are found.
pub open spec fn apply_stats(st: PingSummary, values: Seq<char>) -> PingSummary {
    let nums = stat_numbers(split_char(values, '/'));
    if nums.len() == 4 {
        PingSummary { stats: Some((nums[0], nums[1], nums[2], nums[3])), ..st }
    } else {
        st
    }
}

pub open spec fn apply_line(st: PingSummary, line: Seq<char>) -> PingSummary {
    let st1 = if contains(line, "packets transmitted"@) {
        apply_counts(st, line)
    } else {
        st
    };
    let eq_parts = split_char(line, '=');
    if contains(line, "min/avg/max"@) && eq_parts.len() > 1 {
        apply_stats(st1, eq_parts[1])
    } else {
        st1
    }
}

pub open spec fn summarize_lines(ls: Seq<Seq<char>>) -> PingSummary
    decreases ls.len(),
{
    if ls.len() == 0 {
        empty_summary()
    } else {
        apply_line(summarize_lines(ls.drop_last()), ls.last())
    }
}

pub open spec fn stat_at(stats: Option<(Seq<char>, Seq<char>, Seq<char>, Seq<char>)>, k: int) -> Option<
    Seq<char>,
> {
    match stats {
        Some(t) => Some(
            if k == 0 {
                t.0
            } else if k == 1 {
                t.1
            } else if k == 2 {
                t.2
            } else {
                t.3
            },
        ),
        None => None,
    }
}

/// The result of reading `output` for `target`.
pub open spec fn ping_view(target: Seq<char>, output: Seq<char>) -> PingView {
    let st = summarize_lines(lines(output));
    PingView {
        target: target,
        transmitted: st.transmitted,
        received: st.received,
        loss_percent: st.loss,
        min_ms: stat_at(st.stats, 0),
        avg_ms: stat_at(st.stats, 1),
        max_ms: stat_at(st.stats, 2),
        stddev_ms: stat_at(st.stats, 3),
        error: None,
    }
}

// ---------------------------------------------------------------------------
// Executable reading.
// ---------------------------------------------------------------------------

struct SummaryState {
    transmitted: u32,
    received: u32,
    loss: Vec<char>,
    stats: Option<(Vec<char>, Vec<char>, Vec<char>, Vec<char>)>,
}

impl SummaryState {
    spec fn model(&self) -> PingSummary {
        PingSummary {
            transmitted: self.transmitted,
            received: self.received,
            loss: self.loss@,
            stats: match self.stats {
                Some(t) => Some((t.0@, t.1@, t.2@, t.3@)),
                None => None,
            },
        }
    }
}

fn trimmed_fields(line: &Vec<char>) -> (r: Vec<Vec<char>>)
    ensures
        deep_views(r@) == count_fields(line@),
{
    let ws = words_exec(line);
    let mut r: Vec<Vec<char>> = Vec::new();
    let mut i: usize = 0;
    while i < ws.len()
        invariant
            deep_views(ws@) == words(line@),
            0 <= i <= ws@.len(),
            deep_views(r@) == count_fields(line@).take(i as int),
        decreases ws@.len() - i,
    {
        let t = trim_end_char_exec(&ws[i], ',');
        proof {
            assert(deep_views(ws@).len() == ws@.len());
            assert(ws@[i as int]@ == words(line@)[i as int]);
            assert(count_fields(line@)[i as int] == t@);
            lemma_deep_views_push(r@, t);
            assert(count_fields(line@).take(i + 1) == count_fields(line@).take(i as int).push(t@));
        }
        r.push(t);
        i = i + 1;
    }
    proof {
        assert(count_fields(line@).take(i as int) == count_fields(line@));
    }
    r
}

fn count_for_exec(fields: &Vec<Vec<char>>, keyword: &str) -> (n: u32)
    ensures
        n == count_for(deep_views(fields@), keyword@),
{
    let ghost fs = deep_views(fields@);
    if fields.len() < 3 {
        return 0;
    }
    let mut i: usize = 0;
    while i < fields.len() - 2
        invariant
            fs == deep_views(fields@),
            fields@.len() >= 3,
            0 <= i <= fields@.len() - 2,
            find_count(fs, keyword@, 0) == find_count(fs, keyword@, i as int),
        decreases fields@.len() - i,
    {
        proof {
            assert(fs[i + 1] == fields@[i + 1]@);
            assert(fs[i + 2] == fields@[i + 2]@);
        }
        if eq_str(&fields[i + 1], "packets") && eq_str(&fields[i + 2], keyword) {
            proof {
                assert(fs[i as int] == fields@[i as int]@);
            }
            return match parse_unsigned_exec(&fields[i], u32::MAX as u64) {
                Some(v) => v as u32,
                None => 0,
            };
        }
        i = i + 1;
    }
    0
}

fn find_loss_part_exec(parts: &Vec<Vec<char>>) -> (r: Option<usize>)
    ensures
        match r {
            Some(i) => find_loss_part(deep_views(parts@), 0) == Some(i as int) && i < parts@.len(),
            None => find_loss_part(deep_views(parts@), 0) is None,
        },
{
    let ghost ps = deep_views(parts@);
    let mut i: usize = 0;
    while i < parts.len()
        invariant
            ps == deep_views(parts@),
            0 <= i <= parts@.len(),
            find_loss_part(ps, 0) == find_loss_part(ps, i as int),
        decreases parts@.len() - i,
    {
        proof {
            assert(ps[i as int] == parts@[i as int]@);
        }
        if contains_str(&parts[i], "packet loss") {
            return Some(i);
        }
        i = i + 1;
    }
    None
}

fn full_loss_exec() -> (r: Vec<char>)
    ensures
        r@ == full_loss(),
{
    let mut r: Vec<char> = Vec::new();
    r.push('1');
    r.push('0');
    r.push('0');
    assert(r@ =~= full_loss());
    r
}

fn loss_figure_exec(part: &Vec<char>) -> (r: Vec<char>)
    ensures
        r@ == loss_figure(part@),
{
    let pieces = split_char_exec(part, '%');
    proof {
        assert(deep_views(pieces@)[0] == pieces@[0]@);
    }
    let ws = words_exec(&pieces[0]);
    if ws.len() > 0 {
        let last = ws.len() - 1;
        proof {
            assert(deep_views(ws@)[last as int] == ws@[last as int]@);
        }
        if is_float_literal(&ws[last]) {
            return clone_chars(&ws[last]);
        }
    }
    full_loss_exec()
}

fn apply_counts_exec(st: SummaryState, line: &Vec<char>) -> (r: SummaryState)
    ensures
        r.model() == apply_counts(st.model(), line@),
{
    let fields = trimmed_fields(line);
    let transmitted = count_for_exec(&fields, "transmitted");
    let received = count_for_exec(&fields, "received");
    let parts = split_char_exec(line, ',');
    let loss = match find_loss_part_exec(&parts) {
        Some(i) => {
            proof {
                assert(deep_views(parts@)[i as int] == parts@[i as int]@);
            }
            loss_figure_exec(&parts[i])
        },
        None => st.loss,
    };
    SummaryState { transmitted, received, loss, stats: st.stats }
}

fn stat_numbers_exec(pieces: &Vec<Vec<char>>) -> (r: Vec<Vec<char>>)
    ensures
        deep_views(r@) == stat_numbers(deep_views(pieces@)),
{
    let ghost ps = deep_views(pieces@);
    let mut r: Vec<Vec<char>> = Vec::new();
    let mut i: usize = 0;
    while i < pieces.len()
        invariant
            ps == deep_views(pieces@),
            0 <= i <= pieces@.len(),
            deep_views(r@) == stat_numbers(ps.take(i as int)),
        decreases pieces@.len() - i,
    {
        proof {
            assert(ps.take(i + 1).drop_last() == ps.take(i as int));
            assert(ps.take(i + 1).last() == pieces@[i as int]@);
        }
        let ws = words_exec(&pieces[i]);
        proof {
            assert(deep_views(ws@).len() == ws@.len());
            if ws@.len() > 0 {
                assert(deep_views(ws@)[0] == ws@[0]@);
            }
        }
        if ws.len() > 0 {
            if is_float_literal(&ws[0]) {
                let t = clone_chars(&ws[0]);
                proof {
                    lemma_deep_views_push(r@, t);
                }
                r.push(t);
            }
        }
        i = i + 1;
    }
    proof {
        assert(ps.take(i as int) == ps);
    }
    r
}

fn apply_stats_exec(st: SummaryState, values: &Vec<char>) -> (r: SummaryState)
    ensures
        r.model() == apply_stats(st.model(), values@),
{
    let pieces = split_char_exec(values, '/');
    let mut nums = stat_numbers_exec(&pieces);
    if nums.len() == 4 {
        proof {
            assert(deep_views(nums@)[0] == nums@[0]@);
            assert(deep_views(nums@)[1] == nums@[1]@);
            assert(deep_views(nums@)[2] == nums@[2]@);
            assert(deep_views(nums@)[3] == nums@[3]@);
        }
        let ghost before = nums@;
        let d = nums.pop().unwrap();
        let c = nums.pop().unwrap();
        let b = nums.pop().unwrap();
        let a = nums.pop().unwrap();
        proof {
            assert(a == before[0] && b == before[1] && c == before[2] && d == before[3]);
        }
        SummaryState { stats: Some((a, b, c, d)), ..st }
    } else {
        st
    }
}

fn apply_line_exec(st: SummaryState, line: &Vec<char>) -> (r: SummaryState)
    ensures
        r.model() == apply_line(st.model(), line@),
{
    let st1 = if contains_str(line, "packets transmitted") {
        apply_counts_exec(st, line)
    } else {
        st
    };
    let eq_parts = split_char_exec(line, '=');
    if contains_str(line, "min/avg/max") && eq_parts.len() > 1 {
        proof {
            assert(deep_views(eq_parts@)[1] == eq_parts@[1]@);
        }
        apply_stats_exec(st1, &eq_parts[1])
    } else {
        st1
    }
}

fn summarize(output: &Vec<char>) -> (st: SummaryState)
    ensures
        st.model() == summarize_lines(lines(output@)),
{
    let ls = lines_exec(output);
    let ghost lv = deep_views(ls@);
    let mut st = SummaryState { transmitted: 0, received: 0, loss: full_loss_exec(), stats: None };
    let mut i: usize = 0;
    while i < ls.len()
        invariant
            lv == deep_views(ls@),
            lv == lines(output@),
            0 <= i <= ls@.len(),
            st.model() == summarize_lines(lv.take(i as int)),
        decreases ls@.len() - i,
    {
        proof {
            assert(lv.take(i + 1).drop_last() == lv.take(i as int));
            assert(lv.take(i + 1).last() == ls@[i as int]@);
        }
        st = apply_line_exec(st, &ls[i]);
        i = i + 1;
    }
    proof {
        assert(lv.take(i as int) == lv);
    }
    st
}

fn opt_string(o: Option<Vec<char>>) -> (r: Option<String>)
    ensures
        opt_view(r) == match o {
            Some(v) => Some(v@),
            None => None::<Seq<char>>,
        },
{
    match o {
        Some(v) => Some(string_of(&v)),
        None => None,
    }
}

/// Reads the summary lines of `ping` output for `target`: the transmitted and
/// received counts and the loss from the `packets transmitted` line, and the
/// four round-trip figures from the `min/avg/max` line. Later lines overwrite
/// earlier ones.
pub fn parse_ping(target: &str, output: &str) -> (r: PingResult)
    ensures
        r@ == ping_view(target@, output@),
{
    let out = chars_of(output);
    let st = summarize(&out);
    let (min, avg, max, stddev) = match st.stats {
        Some((a, b, c, d)) => (Some(a), Some(b), Some(c), Some(d)),
        None => (None, None, None, None),
    };
    PingResult {
        target: String::from_str(target),
        transmitted: st.transmitted,
        received: st.received,
        loss_percent: string_of(&st.loss),
        min_ms: opt_string(min),
        avg_ms: opt_string(avg),
        max_ms: opt_string(max),
        stddev_ms: opt_string(stddev),
        error: None,
    }
}

/// The note kept when `ping` failed without a reply: its last output line,
/// or `ping failed` when it printed nothing.
pub open spec fn failure_note(output: Seq<char>) -> Seq<char> {
    let ls = lines(output);
    if ls.len() > 0 {
        ls.last()
    } else {
        "ping failed"@
    }
}

/// The result of a finished `ping` run: its output read as by `parse_ping`,
/// with `failure_note` as the error when the run failed and nothing came back.
pub open spec fn ping_outcome(target: Seq<char>, output: Seq<char>, succeeded: bool) -> PingView {
    let r = ping_view(target, output);
    if !succeeded && r.received == 0 {
        PingView { error: Some(failure_note(output)), ..r }
    } else {
        r
    }
}

/// Builds the result of one `ping` run from what it printed (standard output
/// followed by standard error) and whether it exited successfully.
pub fn ping_result(target: &str, output: &str, succeeded: bool) -> (r: PingResult)
    ensures
        r@ == ping_outcome(target@, output@, succeeded),
{
    let mut r = parse_ping(target, output);
    if !succeeded && r.received == 0 {
        let out = chars_of(output);
        let ls = lines_exec(&out);
        proof {
            assert(deep_views(ls@).len() == ls@.len());
        }
        if ls.len() > 0 {
            proof {
                assert(deep_views(ls@).last() == ls@[ls@.len() - 1]@);
            }
            r.error = Some(string_of(&ls[ls.len() - 1]));
        } else {
            r.error = Some(String::from_str("ping failed"));
        }
    }
    r
}

/// The arguments of `ping`: `count` probes 0.2 s apart to `target`.
pub fn ping_args(target: &str, count: u32) -> (args: Vec<String>)
    ensures
        args@.len() == 5,
        args@[0]@ == "-c"@,
        args@[1]@ == decimal_text(count as nat),
        args@[2]@ == "-i"@,
        args@[3]@ == "0.2"@,
        args@[4]@ == target@,
{
    let mut args: Vec<String> = Vec::new();
    args.push(String::from_str("-c"));
    args.push(decimal_string(count as u64));
    args.push(String::from_str("-i"));
    args.push(String::from_str("0.2"));
    args.push(String::from_str(target));
    args
}

// ---------------------------------------------------------------------------
// Targets.
// ---------------------------------------------------------------------------

pub open spec fn is_gateway_line(line: Seq<char>) -> bool {
    starts_with(trim_start(line), "gateway:"@)
}

/// The first line, from `from` on, that reads `gateway:` after its indentation.
pub open spec fn find_gateway_line(ls: Seq<Seq<char>>, from: int) -> Option<int>
    decreases ls.len() - from,
{
    if from < 0 || from >= ls.len() {
        None
    } else if is_gateway_line(ls[from]) {
        Some(from)
    } else {
        find_gateway_line(ls, from + 1)
    }
}

/// The gateway that `route -n get default` reports: the trimmed text between
/// the first and the second colon of its first `gateway:` line.
pub open spec fn gateway_of(output: Seq<char>) -> Option<Seq<char>> {
    let ls = lines(output);
    match find_gateway_line(ls, 0) {
        Some(i) => {
            let parts = split_char(ls[i], ':');
            if parts.len() > 1 {
                Some(trim(parts[1]))
            } else {
                None
            }
        },
        None => None,
    }
}

/// Reads the default gateway from the output of `route -n get default`.
pub fn parse_default_gateway(output: &str) -> (r: Option<String>)
    ensures
        opt_view(r) == gateway_of(output@),
{
    let out = chars_of(output);
    let ls = lines_exec(&out);
    let ghost lv = deep_views(ls@);
    let mut i: usize = 0;
    while i < ls.len()
        invariant
            lv == deep_views(ls@),
            lv == lines(output@),
            0 <= i <= ls@.len(),
            find_gateway_line(lv, 0) == find_gateway_line(lv, i as int),
        decreases ls@.len() - i,
    {
        proof {
            assert(lv[i as int] == ls@[i as int]@);
        }
        let t = trim_start_exec(&ls[i]);
        if starts_with_str(&t, "gateway:") {
            let parts = split_char_exec(&ls[i], ':');
            proof {
                assert(deep_views(parts@).len() == parts@.len());
            }
            if parts.len() > 1 {
                proof {
                    assert(deep_views(parts@)[1] == parts@[1]@);
                }
                let g = trim_exec(&parts[1]);
                return Some(string_of(&g));
            } else {
                return None;
            }
        }
        i = i + 1;
    }
    None
}

pub open spec fn default_targets_view(gateway: Option<Seq<char>>) -> Seq<Seq<char>> {
    let hosts = seq!["1.1.1.1"@, "teams.microsoft.com"@];
    match gateway {
        Some(g) => seq![g] + hosts,
        None => hosts,
    }
}

/// The ping targets: the default gateway when there is one, then `1.1.1.1`
/// and `teams.microsoft.com`.
pub fn default_targets(gateway: Option<String>) -> (targets: Vec<String>)
    ensures
        targets.deep_view() == default_targets_view(opt_view(gateway)),
{
    let mut targets: Vec<String> = Vec::new();
    match gateway {
        Some(g) => targets.push(g),
        None => {},
    }
    targets.push(String::from_str("1.1.1.1"));
    targets.push(String::from_str("teams.microsoft.com"));
    assert(targets.deep_view() =~= default_targets_view(opt_view(gateway)));
    targets
}

// ---------------------------------------------------------------------------
// Laws.
// ---------------------------------------------------------------------------

proof fn lemma_full_loss_is_literal()
    ensures
        float_literal(full_loss()),
{
    let s = full_loss();
    let s1 = s.skip(1);
    let s2 = s1.skip(1);
    let s3 = s2.skip(1);
    assert(s3.len() == 0);
    assert(s2 =~= seq!['0']);
    assert(s1 =~= seq!['0', '0']);
    assert(first_of(s3, 'e', 'E') == 0);
    assert(first_of(s2, 'e', 'E') == 1);
    assert(first_of(s1, 'e', 'E') == 2);
    assert(first_of(s, 'e', 'E') == 3);
    assert(first_of(s3, '.', '.') == 0);
    assert(first_of(s2, '.', '.') == 1);
    assert(first_of(s1, '.', '.') == 2);
    assert(first_of(s, '.', '.') == 3);
    assert(s.take(3) =~= s);
    assert(all_digits(s));
}

proof fn lemma_stat_numbers_are_literals(pieces: Seq<Seq<char>>)
    ensures
        forall|i: int|
            0 <= i < stat_numbers(pieces).len() ==> float_literal(#[trigger] stat_numbers(pieces)[i]),
    decreases pieces.len(),
{
    if pieces.len() > 0 {
        lemma_stat_numbers_are_literals(pieces.drop_last());
        let before = stat_numbers(pieces.drop_last());
        let ws = words(pieces.last());
        if ws.len() > 0 && float_literal(ws[0]) {
            assert forall|i: int|
                0 <= i < stat_numbers(pieces).len() implies float_literal(
                #[trigger] stat_numbers(pieces)[i],
            ) by {
                if i < before.len() {
                    assert(stat_numbers(pieces)[i] == before[i]);
                }
            }
        }
    }
}

/// The summary line `ping` prints for `n` probes sent and `m` replies, with no loss.
pub open spec fn counts_line(n: nat, m: nat) -> Seq<char> {
    decimal_text(n) + " packets transmitted, "@ + decimal_text(m) + " packets received, 0.0% packet loss"@
}

proof fn lemma_digits_no_space(d: Seq<char>)
    requires
        all_digits(d),
    ensures
        forall|i: int| 0 <= i < d.len() ==> !is_ws(#[trigger] d[i]),
        forall|i: int| 0 <= i < d.len() ==> #[trigger] d[i] != '\n',
{
    assert forall|i: int| 0 <= i < d.len() implies !is_ws(#[trigger] d[i]) by {
        assert(is_digit(d[i]));
    }
    assert forall|i: int| 0 <= i < d.len() implies #[trigger] d[i] != '\n' by {
        assert(is_digit(d[i]));
    }
}

proof fn lemma_counts_line_words(n: nat, m: nat)
    ensures
        words(counts_line(n, m)) == seq![
            decimal_text(n),
            "packets"@,
            "transmitted,"@,
            decimal_text(m),
            "packets"@,
            "received,"@,
        ] + words("0.0% packet loss"@),
{
    let d1 = decimal_text(n);
    let d2 = decimal_text(m);
    let sp = seq![' '];
    let p = "packets"@;
    let t = "transmitted,"@;
    let r = "received,"@;
    let z = "0.0% packet loss"@;
    reveal_strlit(" packets transmitted, ");
    reveal_strlit(" packets received, 0.0% packet loss");
    reveal_strlit("packets");
    reveal_strlit("transmitted,");
    reveal_strlit("received,");
    reveal_strlit("0.0% packet loss");
    lemma_decimal_text_digits(n);
    lemma_decimal_text_digits(m);
    lemma_digits_no_space(d1);
    lemma_digits_no_space(d2);
    assert(" packets transmitted, "@ =~= sp + p + sp + t + sp);
    assert(" packets received, 0.0% packet loss"@ =~= sp + p + sp + r + sp + z);
    let rest5 = r + sp + z;
    let rest4 = p + sp + rest5;
    let rest3 = d2 + sp + rest4;
    let rest2 = t + sp + rest3;
    let rest1 = p + sp + rest2;
    assert(counts_line(n, m) =~= d1 + sp + rest1);
    lemma_words_at_space(d1, ' ', rest1);
    lemma_words_at_space(p, ' ', rest2);
    lemma_words_at_space(t, ' ', rest3);
    lemma_words_at_space(d2, ' ', rest4);
    lemma_words_at_space(p, ' ', rest5);
    lemma_words_at_space(r, ' ', z);
    lemma_words_single(d1);
    lemma_words_single(d2);
    lemma_words_single(p);
    lemma_words_single(t);
    lemma_words_single(r);
    assert(words(counts_line(n, m)) =~= seq![d1, p, t, d2, p, r] + words(z));
}

proof fn lemma_counts_line_fields(n: nat, m: nat)
    ensures
        count_fields(counts_line(n, m)).len() >= 6,
        count_fields(counts_line(n, m))[0] == decimal_text(n),
        count_fields(counts_line(n, m))[1] == "packets"@,
        count_fields(counts_line(n, m))[2] == "transmitted"@,
        count_fields(counts_line(n, m))[3] == decimal_text(m),
        count_fields(counts_line(n, m))[4] == "packets"@,
        count_fields(counts_line(n, m))[5] == "received"@,
{
    let d1 = decimal_text(n);
    let d2 = decimal_text(m);
    lemma_counts_line_words(n, m);
    lemma_decimal_text_digits(n);
    lemma_decimal_text_digits(m);
    reveal_strlit("packets");
    reveal_strlit("transmitted,");
    reveal_strlit("received,");
    reveal_strlit("transmitted");
    reveal_strlit("received");
    let ws = words(counts_line(n, m));
    assert(ws[0] == d1 && ws[1] == "packets"@ && ws[2] == "transmitted,"@);
    assert(ws[3] == d2 && ws[4] == "packets"@ && ws[5] == "received,"@);
    assert(is_digit(d1[d1.len() - 1]));
    assert(is_digit(d2[d2.len() - 1]));
    assert(trim_end_char(d1, ',') == d1);
    assert(trim_end_char(d2, ',') == d2);
    assert(trim_end_char("packets"@, ',') == "packets"@);
    assert("transmitted,"@.drop_last() =~= "transmitted"@);
    assert(trim_end_char("transmitted"@, ',') == "transmitted"@);
    assert(trim_end_char("transmitted,"@, ',') == "transmitted"@);
    assert("received,"@.drop_last() =~= "received"@);
    assert(trim_end_char("received"@, ',') == "received"@);
    assert(trim_end_char("received,"@, ',') == "received"@);
}

/// Counts are read as the whole decimal numbers printed: on the line
/// `<n> packets transmitted, <m> packets received, 0.0% packet loss`, every
/// `n` and `m` that fit in `u32` are read back exactly, however many digits
/// they have.
pub proof fn law_counts_read_whole_number(target: Seq<char>, n: u32, m: u32)
    ensures
        ping_view(target, counts_line(n as nat, m as nat)).transmitted == n,
        ping_view(target, counts_line(n as nat, m as nat)).received == m,
{
    let d1 = decimal_text(n as nat);
    let d2 = decimal_text(m as nat);
    let a = " packets transmitted, "@;
    let b = " packets received, 0.0% packet loss"@;
    let line = counts_line(n as nat, m as nat);
    let fields = count_fields(line);
    reveal_strlit(" packets transmitted, ");
    reveal_strlit(" packets received, 0.0% packet loss");
    reveal_strlit("packets transmitted");
    reveal_strlit("packets");
    reveal_strlit("transmitted");
    reveal_strlit("received");
    lemma_decimal_text_digits(n as nat);
    lemma_decimal_text_digits(m as nat);
    lemma_digits_no_space(d1);
    lemma_digits_no_space(d2);
    lemma_counts_line_fields(n as nat, m as nat);
    // The counts.
    assert(find_count(fields, "transmitted"@, 0) == Some(0int));
    law_decimal_round_trip(n as nat, u32::MAX as nat);
    assert(count_for(fields, "transmitted"@) == n);
    assert(find_count(fields, "received"@, 3) == Some(3int));
    assert(is_digit(d2[0]));
    assert(d2 != "packets"@) by {
        if d2 == "packets"@ {
            assert(d2[0] == 'p');
        }
    }
    assert(find_count(fields, "received"@, 2) == Some(3int));
    assert(find_count(fields, "received"@, 1) == Some(3int));
    assert("transmitted"@ != "received"@) by {
        assert("transmitted"@.len() != "received"@.len());
    }
    assert(find_count(fields, "received"@, 0) == Some(3int));
    law_decimal_round_trip(m as nat, u32::MAX as nat);
    assert(count_for(fields, "received"@) == m);
    // The line is read as such.
    let i0: int = d1.len() as int + 1;
    assert(line.subrange(i0, i0 + 19) =~= "packets transmitted"@);
    assert(matches_at(line, "packets transmitted"@, i0));
    assert(contains(line, "packets transmitted"@));
    assert forall|i: int| 0 <= i < line.len() implies #[trigger] line[i] != '\n' by {
        if i < d1.len() {
            assert(line[i] == d1[i]);
        } else if i < d1.len() + a.len() {
            assert(line[i] == a[i - d1.len()]);
        } else if i < d1.len() + a.len() + d2.len() {
            assert(line[i] == d2[i - d1.len() - a.len()]);
        } else {
            assert(line[i] == b[i - d1.len() - a.len() - d2.len()]);
        }
    }
    lemma_lines_single(line);
    assert(seq![line].drop_last() =~= Seq::<Seq<char>>::empty());
    assert(summarize_lines(seq![line].drop_last()) == empty_summary());
    assert(seq![line].last() == line);
    let st = summarize_lines(seq![line]);
    assert(st == apply_line(empty_summary(), line));
    assert(st.transmitted == n && st.received == m);
}

/// Every figure kept from the summary is a number: the loss and the four
/// round-trip values read as floating-point literals, and the four round-trip
/// values are present together or not at all.
pub open spec fn summary_well_formed(st: PingSummary) -> bool {
    &&& float_literal(st.loss)
    &&& match st.stats {
        Some(t) => float_literal(t.0) && float_literal(t.1) && float_literal(t.2) && float_literal(t.3),
        None => true,
    }
}

proof fn lemma_summary_well_formed(ls: Seq<Seq<char>>)
    ensures
        summary_well_formed(summarize_lines(ls)),
    decreases ls.len(),
{
    lemma_full_loss_is_literal();
    if ls.len() > 0 {
        lemma_summary_well_formed(ls.drop_last());
        let line = ls.last();
        let eq_parts = split_char(line, '=');
        if eq_parts.len() > 1 {
            lemma_stat_numbers_are_literals(split_char(eq_parts[1], '/'));
        }
    }
}

/// Whatever `ping` printed, the loss it is read to have is a number, each
/// round-trip figure is a number, and the four round-trip figures (min, avg,
/// max, stddev) are either all present or all absent.
pub proof fn law_ping_figures_are_numbers(target: Seq<char>, output: Seq<char>)
    ensures
        float_literal(ping_view(target, output).loss_percent),
        ping_view(target, output).min_ms is Some <==> ping_view(target, output).avg_ms is Some,
        ping_view(target, output).avg_ms is Some <==> ping_view(target, output).max_ms is Some,
        ping_view(target, output).max_ms is Some <==> ping_view(target, output).stddev_ms is Some,
        ping_view(target, output).min_ms matches Some(x) ==> float_literal(x),
        ping_view(target, output).avg_ms matches Some(x) ==> float_literal(x),
        ping_view(target, output).max_ms matches Some(x) ==> float_literal(x),
        ping_view(target, output).stddev_ms matches Some(x) ==> float_literal(x),
{
    lemma_summary_well_formed(lines(output));
}

/// A run is marked failed exactly when `ping` exited unsuccessfully and no
/// reply was received; the counts and figures do not depend on the exit status.
pub proof fn law_ping_failure_marked(target: Seq<char>, output: Seq<char>, succeeded: bool)
    ensures
        ping_outcome(target, output, succeeded).error is Some <==> (!succeeded && ping_view(
            target,
            output,
        ).received == 0),
        ping_outcome(target, output, succeeded).received == ping_view(target, output).received,
        ping_outcome(target, output, succeeded).transmitted == ping_view(target, output).transmitted,
        ping_outcome(target, output, succeeded).loss_percent == ping_view(target, output).loss_percent,
        ping_outcome(target, output, succeeded).avg_ms == ping_view(target, output).avg_ms,
{
}

} // verus!
