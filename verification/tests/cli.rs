use usbguard_gui::cli::{describe_api, format_devices, format_report, format_rules, parse_args, usage, yes_no, Command};
use usbguard_gui::dbus::client::to_handles;
use usbguard_gui::dbus::diagnostics::{ApiLevel, ProbeReport};
use usbguard_gui::model::access::AccessState;
use usbguard_gui::model::ids::DeviceId;
use usbguard_gui::remedy::Distro;
use usbguard_gui::rules::parse_device;

#[test]
fn argument_parsing() {
    assert_eq!(parse_args(&[]), Ok(Command::Gui { background: false }));
    assert_eq!(parse_args(&["--background"]), Ok(Command::Gui { background: true }));
    assert_eq!(parse_args(&["--diagnose"]), Ok(Command::Diagnose));
    assert_eq!(parse_args(&["-V"]), Ok(Command::Version));
    assert_eq!(parse_args(&["--bogus"]), Err("--bogus".to_owned()));
    assert_eq!(parse_args(&["--diagnose", "--version"]), Err("--version".to_owned()));
    assert_eq!(parse_args(&["--diagnose", "--background"]), Err("--background".to_owned()));
}

#[test]
fn devices_sorted_by_port_with_dashes_for_absent_fields() {
    let devices = vec![
        parse_device(DeviceId::new(5), r#"allow id 1234:0001 via-port "3-10""#.into()),
        parse_device(DeviceId::new(6), r#"block id 1234:0002 name "Key" serial "" via-port "3-2""#.into()),
        parse_device(DeviceId::new(1), r#"allow via-port "usb1""#.into()),
    ];
    let table = format_devices(&devices);
    let rows: Vec<&str> = table.lines().skip(1).collect();
    assert!(rows[0].starts_with("1 "));
    assert!(rows[1].starts_with("6 "));
    assert!(rows[1].contains("blocked"));
    assert!(rows[2].starts_with("5 "));
    assert!(rows[2].contains('—'));
}

#[test]
fn rules_are_numbered_in_evaluation_order() {
    let text = format_rules(&to_handles(vec![(9, "block".into()), (3, "allow".into())]));
    assert_eq!(text, "   1. [id 9] block\n   2. [id 3] allow\n");
    assert_eq!(format_rules(&[]), "The ruleset is empty.\n");
}

#[test]
fn report_includes_the_remedy() {
    let report = ProbeReport {
        state: AccessState::BridgeNotInstalled,
        bridge_owned: Some(false),
        bridge_activatable: Some(false),
        daemon_running: Some(true),
        agent_present: Some(true),
        api: None,
        implicit_policy_target: None,
    };
    let text = format_report(&report, Distro::Fedora);
    assert!(text.contains("not installed"));
    assert!(text.contains("$ sudo dnf install usbguard-dbus"));
}

#[test]
fn device_table_columns_are_padded() {
    let devices = vec![parse_device(DeviceId::new(12), r#"reject id 1234:abcd name "  Pad  " via-port "2-1""#.into())];
    let table = format_devices(&devices);
    let mut lines = table.lines();
    assert_eq!(lines.next(), Some("ID    STATE     VID:PID    PORT     NAME                         SERIAL"));
    assert_eq!(lines.next(), Some("12    rejected  1234:abcd  2-1      Pad                          —"));
    assert_eq!(lines.next(), None);
}

#[test]
fn unparsable_devices_show_the_error() {
    let devices = vec![parse_device(DeviceId::new(4), r#"allow name "open"#.into())];
    let table = format_devices(&devices);
    assert!(table.contains("      (could not parse: a quoted string is not closed at byte 11) allow name \"open\n"));
}

#[test]
fn report_lines_for_a_reachable_daemon() {
    let report = ProbeReport {
        state: AccessState::Connected { caps: Default::default() },
        bridge_owned: Some(true),
        bridge_activatable: None,
        daemon_running: None,
        agent_present: Some(false),
        api: Some(ApiLevel::AtLeast1_1),
        implicit_policy_target: Some("block".into()),
    };
    let text = format_report(&report, Distro::Debian);
    assert!(text.starts_with("USBGuard GUI 0.1.0 — access diagnostics\n\n"));
    assert!(text.contains("  System bus                  ok\n"));
    assert!(text.contains("  Bridge (org.usbguard1)      running\n"));
    assert!(text.contains("  usbguard.service            unknown\n"));
    assert!(text.contains("  Polkit agent                none detected\n"));
    assert!(text.contains("  Read access                 ok (ImplicitPolicyTarget = block)\n"));
    assert!(text.contains("  API level                   1.1.0 or later (runtime-only rules supported)\n"));
    assert!(text.ends_with("\nResult: connected\n"));
}

#[test]
fn help_and_version_texts() {
    assert!(usage().starts_with("usbguard-gui 0.1.0\nUnprivileged desktop client for USBGuard.\n"));
    assert_eq!(describe_api(None), "USBGuard D-Bus API: not reachable (see --diagnose)");
    assert_eq!(yes_no(None, "a", "b"), "unknown");
    assert_eq!(yes_no(Some(false), "a", "b"), "b");
}
