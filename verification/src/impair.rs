//! Network impairment profiles and the dummynet/pf commands that apply them.
//!
//! A packet-loss rate is carried as the text it is written with (`0.02`) and
//! whether it lies between 0 and 1.
use vstd::prelude::*;
use crate::text::{
    append_str, chars_of, decimal_text, opt_view, parse_unsigned, parse_unsigned_exec,
    push_decimal, string_of, trim, trim_exec,
};

verus! {

/// A packet-loss rate: its decimal text and whether it lies in `0..=1`.
pub struct LossRate {
    pub text: String,
    pub in_unit_range: bool,
}

/// A named impairment profile.
pub struct Profile {
    pub name: String,
    pub delay_ms: u32,
    pub loss: LossRate,
    pub bandwidth_mbit: u32,
}

pub struct ProfileView {
    pub name: Seq<char>,
    pub delay_ms: u32,
    pub loss: Seq<char>,
    pub loss_in_range: bool,
    pub bandwidth_mbit: u32,
}

impl View for Profile {
    type V = ProfileView;

    open spec fn view(&self) -> ProfileView {
        ProfileView {
            name: self.name@,
            delay_ms: self.delay_ms,
            loss: self.loss.text@,
            loss_in_range: self.loss.in_unit_range,
            bandwidth_mbit: self.bandwidth_mbit,
        }
    }
}

/// The built-in profiles.
pub open spec fn profile_table() -> Seq<ProfileView> {
    seq![
        ProfileView {
            name: "congested-wifi"@,
            delay_ms: 50,
            loss: "0.02"@,
            loss_in_range: true,
            bandwidth_mbit: 10,
        },
        ProfileView {
            name: "bad-wifi"@,
            delay_ms: 100,
            loss: "0.05"@,
            loss_in_range: true,
            bandwidth_mbit: 5,
        },
        ProfileView {
            name: "lossy-vpn"@,
            delay_ms: 80,
            loss: "0.03"@,
            loss_in_range: true,
            bandwidth_mbit: 20,
        },
    ]
}

/// The settings used when only custom values are given: no delay, no loss,
/// no bandwidth limit.
pub open spec fn custom_profile() -> ProfileView {
    ProfileView { name: "custom"@, delay_ms: 0, loss: "0"@, loss_in_range: true, bandwidth_mbit: 0 }
}

pub open spec fn find_profile_from(name: Seq<char>, from: int) -> Option<ProfileView>
    decreases profile_table().len() - from,
{
    if from < 0 || from >= profile_table().len() {
        None
    } else if profile_table()[from].name == name {
        Some(profile_table()[from])
    } else {
        find_profile_from(name, from + 1)
    }
}

/// The built-in profile of that name.
pub open spec fn find_profile(name: Seq<char>) -> Option<ProfileView> {
    find_profile_from(name, 0)
}

fn make_profile(name: &str, delay_ms: u32, loss: &str, bandwidth_mbit: u32) -> (p: Profile)
    ensures
        p@ == (ProfileView {
            name: name@,
            delay_ms,
            loss: loss@,
            loss_in_range: true,
            bandwidth_mbit,
        }),
{
    Profile {
        name: String::from_str(name),
        delay_ms,
        loss: LossRate { text: String::from_str(loss), in_unit_range: true },
        bandwidth_mbit,
    }
}

/// The built-in profiles: congested Wi-Fi, bad Wi-Fi and a lossy VPN.
pub fn profiles() -> (ps: Vec<Profile>)
    ensures
        ps@.len() == profile_table().len(),
        forall|i: int| 0 <= i < ps@.len() ==> #[trigger] ps@[i]@ == profile_table()[i],
{
    let mut ps: Vec<Profile> = Vec::new();
    ps.push(make_profile("congested-wifi", 50, "0.02", 10));
    ps.push(make_profile("bad-wifi", 100, "0.05", 5));
    ps.push(make_profile("lossy-vpn", 80, "0.03", 20));
    ps
}

/// Looks up a built-in profile by name.
pub fn find_profile_exec(name: &str) -> (r: Option<Profile>)
    ensures
        match r {
            Some(p) => find_profile(name@) == Some(p@),
            None => find_profile(name@) is None,
        },
{
    let mut ps = profiles();
    let wanted = String::from_str(name);
    let mut i: usize = 0;
    while i < ps.len()
        invariant
            ps@.len() == profile_table().len(),
            forall|j: int| 0 <= j < ps@.len() ==> #[trigger] ps@[j]@ == profile_table()[j],
            wanted@ == name@,
            0 <= i <= ps@.len(),
            find_profile(name@) == find_profile_from(name@, i as int),
        decreases ps@.len() - i,
    {
        proof {
            assert(ps@[i as int]@ == profile_table()[i as int]);
        }
        if ps[i].name == wanted {
            let ghost pv = ps@[i as int]@;
            let p = ps.swap_remove(i);
            proof {
                assert(p@ == pv);
            }
            return Some(p);
        }
        i = i + 1;
    }
    None
}

// ---------------------------------------------------------------------------
// Failures.
// ---------------------------------------------------------------------------

/// Why impairment cannot be applied or removed.
pub enum ImpairError {
    /// Applying needs root; carries the profile name.
    NeedsRoot(String),
    /// No built-in profile has this name and no custom delay was given.
    UnknownProfile(String),
    LossOutOfRange,
    /// Removing needs root.
    OffNeedsRoot,
}

pub enum ImpairFailure {
    NeedsRoot(Seq<char>),
    UnknownProfile(Seq<char>),
    LossOutOfRange,
    OffNeedsRoot,
}

impl View for ImpairError {
    type V = ImpairFailure;

    open spec fn view(&self) -> ImpairFailure {
        match self {
            ImpairError::NeedsRoot(n) => ImpairFailure::NeedsRoot(n@),
            ImpairError::UnknownProfile(n) => ImpairFailure::UnknownProfile(n@),
            ImpairError::LossOutOfRange => ImpairFailure::LossOutOfRange,
            ImpairError::OffNeedsRoot => ImpairFailure::OffNeedsRoot,
        }
    }
}

pub open spec fn failure_message(f: ImpairFailure) -> Seq<char> {
    match f {
        ImpairFailure::NeedsRoot(n) => "impair requires root; rerun with: sudo netburn impair "@ + n,
        ImpairFailure::UnknownProfile(n) => "unknown profile '"@ + n
            + "'; choose congested-wifi, bad-wifi, or lossy-vpn"@,
        ImpairFailure::LossOutOfRange => "loss must be between 0 and 1"@,
        ImpairFailure::OffNeedsRoot => "impair off requires root; rerun with: sudo netburn impair off"@,
    }
}

impl ImpairError {
    /// The message shown to the user.
    pub fn message(&self) -> (m: String)
        ensures
            m@ == failure_message(self@),
    {
        let mut v: Vec<char> = Vec::new();
        match self {
            ImpairError::NeedsRoot(n) => {
                append_str(&mut v, "impair requires root; rerun with: sudo netburn impair ");
                append_str(&mut v, n.as_str());
            },
            ImpairError::UnknownProfile(n) => {
                append_str(&mut v, "unknown profile '");
                append_str(&mut v, n.as_str());
                append_str(&mut v, "'; choose congested-wifi, bad-wifi, or lossy-vpn");
            },
            ImpairError::LossOutOfRange => {
                append_str(&mut v, "loss must be between 0 and 1");
            },
            ImpairError::OffNeedsRoot => {
                append_str(&mut v, "impair off requires root; rerun with: sudo netburn impair off");
            },
        }
        assert(v@ =~= failure_message(self@));
        string_of(&v)
    }
}

// ---------------------------------------------------------------------------
// Applying a profile.
// ---------------------------------------------------------------------------

/// The dummynet pipe configuration: bandwidth (omitted when 0), delay and
/// packet-loss rate.
pub open spec fn pipe_config(delay: u32, loss: Seq<char>, bandwidth: u32) -> Seq<char> {
    if bandwidth == 0 {
        "delay "@ + decimal_text(delay as nat) + "ms plr "@ + loss
    } else {
        "bw "@ + decimal_text(bandwidth as nat) + "Mbit/s delay "@ + decimal_text(delay as nat)
            + "ms plr "@ + loss
    }
}

/// What applying `name` with the given overrides comes to: the pipe
/// configuration, or why it is refused. Without root (and not a dry run) it
/// is refused; an unknown name needs a custom delay; a given value overrides
/// the profile's; the loss rate must lie between 0 and 1.
pub open spec fn apply_outcome(
    name: Seq<char>,
    delay: Option<u32>,
    loss: Option<(Seq<char>, bool)>,
    bandwidth: Option<u32>,
    dry_run: bool,
    has_root: bool,
) -> Result<Seq<char>, ImpairFailure> {
    if !dry_run && !has_root {
        Err(ImpairFailure::NeedsRoot(name))
    } else if find_profile(name) is None && delay is None {
        Err(ImpairFailure::UnknownProfile(name))
    } else {
        let p = match find_profile(name) {
            Some(p) => p,
            None => custom_profile(),
        };
        let d = match delay {
            Some(d) => d,
            None => p.delay_ms,
        };
        let (loss_text, loss_ok) = match loss {
            Some(l) => l,
            None => (p.loss, p.loss_in_range),
        };
        let b = match bandwidth {
            Some(b) => b,
            None => p.bandwidth_mbit,
        };
        if !loss_ok {
            Err(ImpairFailure::LossOutOfRange)
        } else {
            Ok(pipe_config(d, loss_text, b))
        }
    }
}

pub open spec fn loss_view(l: Option<LossRate>) -> Option<(Seq<char>, bool)> {
    match l {
        Some(l) => Some((l.text@, l.in_unit_range)),
        None => None,
    }
}

/// One command to run: program and arguments.
pub struct CommandLine {
    pub program: String,
    pub args: Vec<String>,
}

/// The rules that send all traffic through dummynet pipe 1.
pub const PF_RULES: &'static str = "dummynet in from any to any pipe 1\ndummynet out from any to any pipe 1\n";

/// The arguments of `dnctl` that configure pipe 1.
pub open spec fn dnctl_args(config: Seq<char>) -> Seq<Seq<char>> {
    seq!["pipe"@, "1"@, "config"@, config]
}

/// Works out how to apply an impairment profile. `has_root` tells whether the
/// process runs as root; a dry run only shows the commands.
pub fn plan_apply(
    name: &str,
    delay: Option<u32>,
    loss: Option<LossRate>,
    bandwidth: Option<u32>,
    dry_run: bool,
    has_root: bool,
) -> (r: Result<CommandLine, ImpairError>)
    ensures
        match (r, apply_outcome(name@, delay, loss_view(loss), bandwidth, dry_run, has_root)) {
            (Ok(c), Ok(config)) => c.program@ == "dnctl"@ && c.args.deep_view() == dnctl_args(config),
            (Err(e), Err(f)) => e@ == f,
            _ => false,
        },
{
    if !dry_run && !has_root {
        return Err(ImpairError::NeedsRoot(String::from_str(name)));
    }
    let found = find_profile_exec(name);
    if found.is_none() && delay.is_none() {
        return Err(ImpairError::UnknownProfile(String::from_str(name)));
    }
    let p = match found {
        Some(p) => p,
        None => Profile {
            name: String::from_str("custom"),
            delay_ms: 0,
            loss: LossRate { text: String::from_str("0"), in_unit_range: true },
            bandwidth_mbit: 0,
        },
    };
    let d = match delay {
        Some(d) => d,
        None => p.delay_ms,
    };
    let l = match loss {
        Some(l) => l,
        None => p.loss,
    };
    let b = match bandwidth {
        Some(b) => b,
        None => p.bandwidth_mbit,
    };
    if !l.in_unit_range {
        return Err(ImpairError::LossOutOfRange);
    }
    let mut config: Vec<char> = Vec::new();
    if b == 0 {
        append_str(&mut config, "delay ");
        push_decimal(&mut config, d as u64);
        append_str(&mut config, "ms plr ");
        append_str(&mut config, l.text.as_str());
    } else {
        append_str(&mut config, "bw ");
        push_decimal(&mut config, b as u64);
        append_str(&mut config, "Mbit/s delay ");
        push_decimal(&mut config, d as u64);
        append_str(&mut config, "ms plr ");
        append_str(&mut config, l.text.as_str());
    }
    proof {
        assert(config@ =~= pipe_config(d, l.text@, b));
    }
    let mut args: Vec<String> = Vec::new();
    args.push(String::from_str("pipe"));
    args.push(String::from_str("1"));
    args.push(String::from_str("config"));
    args.push(string_of(&config));
    proof {
        assert(args.deep_view() =~= dnctl_args(pipe_config(d, l.text@, b)));
    }
    Ok(CommandLine { program: String::from_str("dnctl"), args })
}

/// The heredoc that shows the pf rules being loaded.
pub open spec fn rules_banner_text() -> Seq<char> {
    "sudo pfctl -f - <<'NETBURN_RULES'\n"@ + PF_RULES@ + "NETBURN_RULES"@
}

pub fn rules_banner() -> (s: String)
    ensures
        s@ == rules_banner_text(),
{
    let mut v: Vec<char> = Vec::new();
    append_str(&mut v, "sudo pfctl -f - <<'NETBURN_RULES'\n");
    append_str(&mut v, PF_RULES);
    append_str(&mut v, "NETBURN_RULES");
    assert(v@ =~= rules_banner_text());
    string_of(&v)
}

// ---------------------------------------------------------------------------
// Removing impairment.
// ---------------------------------------------------------------------------

/// What a dry run says about disabling pf.
pub const PF_DISABLE_NOTE: &'static str = "sudo pfctl -d (only if netburn enabled PF)";

pub open spec fn command_views(cs: Seq<CommandLine>) -> Seq<(Seq<char>, Seq<Seq<char>>)> {
    Seq::new(cs.len(), |i: int| (cs[i].program@, cs[i].args.deep_view()))
}

/// The commands that remove impairment: flush dummynet, reload the system pf rules.
pub open spec fn restore_commands() -> Seq<(Seq<char>, Seq<Seq<char>>)> {
    seq![("dnctl"@, seq!["-q"@, "flush"@]), ("pfctl"@, seq!["-f"@, "/etc/pf.conf"@])]
}

/// Works out how to remove impairment; refused without root unless a dry run.
pub fn plan_off(dry_run: bool, has_root: bool) -> (r: Result<Vec<CommandLine>, ImpairError>)
    ensures
        !dry_run && !has_root ==> (r matches Err(e) && e@ == ImpairFailure::OffNeedsRoot),
        dry_run || has_root ==> (r matches Ok(cs) && command_views(cs@) == restore_commands()),
{
    if !dry_run && !has_root {
        return Err(ImpairError::OffNeedsRoot);
    }
    let mut flush: Vec<String> = Vec::new();
    flush.push(String::from_str("-q"));
    flush.push(String::from_str("flush"));
    let mut reload: Vec<String> = Vec::new();
    reload.push(String::from_str("-f"));
    reload.push(String::from_str("/etc/pf.conf"));
    let mut cs: Vec<CommandLine> = Vec::new();
    cs.push(CommandLine { program: String::from_str("dnctl"), args: flush });
    cs.push(CommandLine { program: String::from_str("pfctl"), args: reload });
    proof {
        assert(cs@[0].args.deep_view() =~= seq!["-q"@, "flush"@]);
        assert(cs@[1].args.deep_view() =~= seq!["-f"@, "/etc/pf.conf"@]);
        assert(command_views(cs@) =~= restore_commands());
    }
    Ok(cs)
}

// ---------------------------------------------------------------------------
// Commands as shown to the user.
// ---------------------------------------------------------------------------

/// The arguments joined by single spaces.
pub open spec fn join_words(args: Seq<Seq<char>>) -> Seq<char>
    decreases args.len(),
{
    if args.len() == 0 {
        seq![]
    } else if args.len() == 1 {
        args[0]
    } else {
        join_words(args.drop_last()) + seq![' '] + args.last()
    }
}

/// `sudo <program> <args joined by spaces>`.
pub open spec fn command_line_text(program: Seq<char>, args: Seq<Seq<char>>) -> Seq<char> {
    "sudo "@ + program + seq![' '] + join_words(args)
}

/// The command as it is printed before it runs.
pub fn command_text(program: &str, args: &Vec<String>) -> (s: String)
    ensures
        s@ == command_line_text(program@, args.deep_view()),
{
    let mut v: Vec<char> = Vec::new();
    append_str(&mut v, "sudo ");
    append_str(&mut v, program);
    v.push(' ');
    let ghost head = v@;
    let ghost av = args.deep_view();
    let mut i: usize = 0;
    while i < args.len()
        invariant
            av == args.deep_view(),
            0 <= i <= args@.len(),
            v@ == head + join_words(av.take(i as int)),
        decreases args@.len() - i,
    {
        proof {
            assert(av.take(i + 1).drop_last() == av.take(i as int));
            assert(av.take(i + 1).last() == args@[i as int]@);
        }
        if i > 0 {
            v.push(' ');
        }
        append_str(&mut v, args[i].as_str());
        proof {
            if i == 0 {
                assert(av.take(1)[0] == args@[0]@);
            }
            assert(v@ =~= head + join_words(av.take(i + 1)));
        }
        i = i + 1;
    }
    proof {
        assert(av.take(i as int) == av);
        assert(v@ =~= command_line_text(program@, av));
    }
    string_of(&v)
}

// ---------------------------------------------------------------------------
// Privileges.
// ---------------------------------------------------------------------------

/// The user id that `id -u` printed: its trimmed output read as a `u32`, or
/// 1 (not root) when there is no output or it does not read as a number.
pub open spec fn uid_of(id_output: Option<Seq<char>>) -> u32 {
    match id_output {
        Some(s) => match parse_unsigned(trim(s), u32::MAX as nat) {
            Some(v) => v as u32,
            None => 1,
        },
        None => 1,
    }
}

/// Reads the user id from the output of `id -u`.
pub fn uid_from_id_output(id_output: Option<String>) -> (uid: u32)
    ensures
        uid == uid_of(
            opt_view(id_output),
        ),
{
    match id_output {
        Some(s) => {
            let v = chars_of(s.as_str());
            let t = trim_exec(&v);
            match parse_unsigned_exec(&t, u32::MAX as u64) {
                Some(n) => n as u32,
                None => 1,
            }
        },
        None => 1,
    }
}

/// Whether the output of `id -u` names root (user id 0).
pub fn is_root(id_output: Option<String>) -> (r: bool)
    ensures
        r == (uid_of(
            opt_view(id_output),
        ) == 0),
{
    uid_from_id_output(id_output) == 0
}

// ---------------------------------------------------------------------------
// Laws.
// ---------------------------------------------------------------------------

/// Applying succeeds exactly when the process may change the network (a dry
/// run, or root), the name is a built-in profile or a custom delay is given,
/// and the effective loss rate lies between 0 and 1.
pub proof fn law_apply_succeeds_when(
    name: Seq<char>,
    delay: Option<u32>,
    loss: Option<(Seq<char>, bool)>,
    bandwidth: Option<u32>,
    dry_run: bool,
    has_root: bool,
)
    ensures
        apply_outcome(name, delay, loss, bandwidth, dry_run, has_root) is Ok <==> {
            &&& dry_run || has_root
            &&& find_profile(name) is Some || delay is Some
            &&& match loss {
                Some(l) => l.1,
                None => true,
            }
        },
{
    assert(custom_profile().loss_in_range);
    if find_profile(name) is Some {
        lemma_found_profile_in_range(name, 0);
    }
}

proof fn lemma_found_profile_in_range(name: Seq<char>, from: int)
    ensures
        find_profile_from(name, from) matches Some(p) ==> p.loss_in_range,
    decreases profile_table().len() - from,
{
    if 0 <= from < profile_table().len() {
        lemma_found_profile_in_range(name, from + 1);
    }
}

/// A dry run is never refused for want of root.
pub proof fn law_dry_run_needs_no_root(
    name: Seq<char>,
    delay: Option<u32>,
    loss: Option<(Seq<char>, bool)>,
    bandwidth: Option<u32>,
    has_root: bool,
)
    ensures
        !(apply_outcome(name, delay, loss, bandwidth, true, has_root) matches Err(
            ImpairFailure::NeedsRoot(_),
        )),
{
}

/// A built-in profile without overrides configures exactly its own
/// bandwidth, delay and loss.
pub proof fn law_builtin_profile_settings(i: int, has_root: bool, dry_run: bool)
    requires
        0 <= i < profile_table().len(),
        dry_run || has_root,
    ensures
        apply_outcome(profile_table()[i].name, None, None, None, dry_run, has_root) == Ok::<
            Seq<char>,
            ImpairFailure,
        >(
            pipe_config(
                profile_table()[i].delay_ms,
                profile_table()[i].loss,
                profile_table()[i].bandwidth_mbit,
            ),
        ),
{
    reveal_strlit("congested-wifi");
    reveal_strlit("bad-wifi");
    reveal_strlit("lossy-vpn");
    let t = profile_table();
    assert(t[0].name.len() == 14 && t[1].name.len() == 8 && t[2].name.len() == 9);
    if i == 0 {
        assert(find_profile(t[0].name) == Some(t[0]));
    } else if i == 1 {
        assert(t[0].name != t[1].name);
        assert(find_profile_from(t[1].name, 1) == Some(t[1]));
        assert(find_profile(t[1].name) == Some(t[1]));
    } else {
        assert(t[0].name != t[2].name);
        assert(t[1].name != t[2].name);
        assert(find_profile_from(t[2].name, 2) == Some(t[2]));
        assert(find_profile_from(t[2].name, 1) == Some(t[2]));
        assert(find_profile(t[2].name) == Some(t[2]));
    }
}

proof fn lemma_pipe_config_parts(d: u32, lt: Seq<char>, b: u32)
    ensures
        b > 0 ==> exists|rest: Seq<char>|
            pipe_config(d, lt, b) == "bw "@ + decimal_text(b as nat) + "Mbit/s"@ + rest,
        b == 0 ==> exists|rest: Seq<char>| pipe_config(d, lt, b) == "delay "@ + rest,
        exists|before: Seq<char>, after: Seq<char>|
            pipe_config(d, lt, b) == before + "delay "@ + decimal_text(d as nat) + "ms"@ + after,
        exists|before: Seq<char>| pipe_config(d, lt, b) == before + " plr "@ + lt,
{
    reveal_strlit("bw ");
    reveal_strlit("Mbit/s");
    reveal_strlit("Mbit/s delay ");
    reveal_strlit("delay ");
    reveal_strlit("ms");
    reveal_strlit("ms plr ");
    reveal_strlit(" plr ");
    let c = pipe_config(d, lt, b);
    let dt = decimal_text(d as nat);
    if b == 0 {
        assert("ms plr "@ =~= "ms"@ + " plr "@);
        assert(c =~= "delay "@ + (dt + "ms plr "@ + lt));
        assert(c =~= Seq::<char>::empty() + "delay "@ + dt + "ms"@ + (" plr "@ + lt));
        assert(c =~= ("delay "@ + dt + "ms"@) + " plr "@ + lt);
    } else {
        let bt = decimal_text(b as nat);
        reveal_strlit(" delay ");
        reveal_strlit("Mbit/s ");
        assert("Mbit/s delay "@ =~= "Mbit/s"@ + " delay "@);
        assert("Mbit/s delay "@ =~= "Mbit/s "@ + "delay "@);
        assert("ms plr "@ =~= "ms"@ + " plr "@);
        assert(c =~= "bw "@ + bt + "Mbit/s"@ + (" delay "@ + dt + "ms plr "@ + lt));
        let before = "bw "@ + bt + "Mbit/s "@;
        assert(c =~= before + "delay "@ + dt + "ms"@ + (" plr "@ + lt));
        assert(c =~= (before + "delay "@ + dt + "ms"@) + " plr "@ + lt);
    }
}

/// A given bandwidth or delay is what gets configured, whatever the profile
/// says: a bandwidth `b > 0` opens the configuration as `bw <b>Mbit/s`, a
/// bandwidth of 0 leaves the bandwidth out, and a delay `d` appears as
/// `delay <d>ms`; a given loss rate ends it as `plr <loss>`.
pub proof fn law_overrides_are_configured(
    name: Seq<char>,
    delay: Option<u32>,
    loss: Option<(Seq<char>, bool)>,
    bandwidth: Option<u32>,
    dry_run: bool,
    has_root: bool,
)
    ensures
        apply_outcome(name, delay, loss, bandwidth, dry_run, has_root) matches Ok(c) ==> {
            &&& (bandwidth is Some && bandwidth->0 > 0) ==> exists|rest: Seq<char>|
                c == "bw "@ + decimal_text(bandwidth->0 as nat) + "Mbit/s"@ + rest
            &&& bandwidth == Some(0u32) ==> exists|rest: Seq<char>| c == "delay "@ + rest
            &&& delay is Some ==> exists|before: Seq<char>, after: Seq<char>|
                c == before + "delay "@ + decimal_text(delay->0 as nat) + "ms"@ + after
            &&& loss is Some ==> exists|before: Seq<char>| c == before + " plr "@ + (loss->0).0
        },
{
    if let Ok(c) = apply_outcome(name, delay, loss, bandwidth, dry_run, has_root) {
        let p = match find_profile(name) {
            Some(p) => p,
            None => custom_profile(),
        };
        let d = match delay {
            Some(d) => d,
            None => p.delay_ms,
        };
        let lt = match loss {
            Some(l) => l.0,
            None => p.loss,
        };
        let b = match bandwidth {
            Some(b) => b,
            None => p.bandwidth_mbit,
        };
        assert(c == pipe_config(d, lt, b));
        lemma_pipe_config_parts(d, lt, b);
    }
}

} // verus!
