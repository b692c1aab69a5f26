use netburn::impair::{
    command_text, is_root, plan_apply, plan_off, profiles, rules_banner, uid_from_id_output,
    LossRate, PF_DISABLE_NOTE,
};

fn loss(text: &str, in_range: bool) -> Option<LossRate> {
    Some(LossRate { text: text.into(), in_unit_range: in_range })
}

#[test]
fn impair_dry_run_prints_commands_without_root() {
    let cmd = plan_apply("congested-wifi", None, None, None, true, false)
        .unwrap_or_else(|e| panic!("{}", e.message()));
    let mut stdout = command_text(&cmd.program, &cmd.args);
    stdout.push('\n');
    stdout.push_str(&rules_banner());
    assert!(stdout.contains("dnctl pipe 1 config bw 10Mbit/s delay 50ms plr 0.02"));
    assert!(stdout.contains("dummynet in from any to any pipe 1"));
    assert!(stdout.contains("pfctl -f -"));
}

#[test]
fn impair_off_dry_run_prints_restore_commands() {
    let commands = plan_off(true, false).unwrap_or_else(|e| panic!("{}", e.message()));
    let stdout: Vec<String> = commands.iter().map(|c| command_text(&c.program, &c.args)).collect();
    let stdout = stdout.join("\n");
    assert!(stdout.contains("dnctl -q flush"));
    assert!(stdout.contains("pfctl -f /etc/pf.conf"));
    assert_eq!(PF_DISABLE_NOTE, "sudo pfctl -d (only if netburn enabled PF)");
}

#[test]
fn impair_unknown_profile_fails() {
    let r = plan_apply("nope", None, None, None, true, false);
    match r {
        Err(e) => assert_eq!(
            e.message(),
            "unknown profile 'nope'; choose congested-wifi, bad-wifi, or lossy-vpn"
        ),
        Ok(_) => panic!("unknown profile accepted"),
    }
}

#[test]
fn impair_needs_root_unless_dry_run() {
    match plan_apply("bad-wifi", None, None, None, false, false) {
        Err(e) => assert_eq!(e.message(), "impair requires root; rerun with: sudo netburn impair bad-wifi"),
        Ok(_) => panic!("applied without root"),
    }
    assert!(plan_apply("bad-wifi", None, None, None, false, true).is_ok());
    match plan_off(false, false) {
        Err(e) => assert_eq!(e.message(), "impair off requires root; rerun with: sudo netburn impair off"),
        Ok(_) => panic!("removed without root"),
    }
}

#[test]
fn impair_overrides_and_custom() {
    let cmd = plan_apply("lossy-vpn", Some(5), loss("0.5", true), Some(0), true, false).ok().unwrap();
    assert_eq!(cmd.args, vec!["pipe", "1", "config", "delay 5ms plr 0.5"]);
    let cmd = plan_apply("mine", Some(30), None, None, true, false).ok().unwrap();
    assert_eq!(command_text(&cmd.program, &cmd.args), "sudo dnctl pipe 1 config delay 30ms plr 0");
    let cmd = plan_apply("mine", Some(30), None, Some(8), true, false).ok().unwrap();
    assert_eq!(cmd.args[3], "bw 8Mbit/s delay 30ms plr 0");
    match plan_apply("bad-wifi", None, loss("1.5", false), None, true, false) {
        Err(e) => assert_eq!(e.message(), "loss must be between 0 and 1"),
        Ok(_) => panic!("loss out of range accepted"),
    }
}

#[test]
fn builtin_profiles() {
    let ps = profiles();
    let names: Vec<&str> = ps.iter().map(|p| p.name.as_str()).collect();
    assert_eq!(names, vec!["congested-wifi", "bad-wifi", "lossy-vpn"]);
    let cmd = plan_apply("bad-wifi", None, None, None, true, false).ok().unwrap();
    assert_eq!(cmd.args[3], "bw 5Mbit/s delay 100ms plr 0.05");
    let cmd = plan_apply("lossy-vpn", None, None, None, true, false).ok().unwrap();
    assert_eq!(cmd.args[3], "bw 20Mbit/s delay 80ms plr 0.03");
}

#[test]
fn command_text_joins_arguments() {
    assert_eq!(command_text("pfctl", &vec!["-d".to_string()]), "sudo pfctl -d");
    assert_eq!(command_text("pfctl", &vec![]), "sudo pfctl ");
}

#[test]
fn user_id_from_id_output() {
    assert_eq!(uid_from_id_output(Some("501\n".into())), 501);
    assert_eq!(uid_from_id_output(Some("0\n".into())), 0);
    assert_eq!(uid_from_id_output(Some("root".into())), 1);
    assert_eq!(uid_from_id_output(None), 1);
    assert!(is_root(Some(" 0 ".into())));
    assert!(!is_root(Some("99999999999".into())));
}
