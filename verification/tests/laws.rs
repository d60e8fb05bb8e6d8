use usbguard_gui::cli::{parse_args, Command};
use usbguard_gui::dbus::coalesce::{Coalescer, DeviceSignal, MAX_LATENCY, QUIET_WINDOW};
use usbguard_gui::dbus::diagnostics::exit_code;
use usbguard_gui::dbus::errors::{classify, ErrorShape};
use usbguard_gui::dbus::supervisor::{ServiceWait, Supervisor, BACKOFF_MAX, BACKOFF_MIN};
use usbguard_gui::device_store::DeviceStore;
use usbguard_gui::model::access::{AccessState, Capabilities};
use usbguard_gui::model::device::{DeviceAttributes, DeviceDelta};
use usbguard_gui::model::ids::DeviceId;
use usbguard_gui::model::target::{DeviceEvent, Target};
use usbguard_gui::remedy::{remedy, Distro};
use usbguard_gui::rules::builder::{build_rule, FieldInput};
use usbguard_gui::model::rule::{AttributeName, RuleTarget};
use usbguard_gui::rules::{parse_device, parse_rule};

fn every_state() -> Vec<AccessState> {
    vec![
        AccessState::Connected { caps: Capabilities::default() },
        AccessState::BusUnavailable,
        AccessState::BridgeNotInstalled,
        AccessState::BridgeNotRunning { daemon_running: Some(false) },
        AccessState::DeniedByBusPolicy,
        AccessState::DeniedByPolkit { action: None },
        AccessState::DeniedByIpcAcl,
        AccessState::NoPolkitAgent,
        AccessState::DeniedUnattributed { detail: "x".into() },
    ]
}

#[test]
fn exit_code_three_is_exactly_a_denial() {
    for s in every_state() {
        assert_eq!(exit_code(&s) == 3, s.is_denied(), "{s:?}");
    }
}

#[test]
fn every_problem_has_a_remedy() {
    for s in every_state() {
        let connected = matches!(s, AccessState::Connected { .. });
        assert_eq!(remedy(&s, Distro::Unknown).is_none(), connected, "{s:?}");
    }
}

#[test]
fn unreachable_names_are_never_denials() {
    for name in [
        "org.freedesktop.DBus.Error.ServiceUnknown",
        "org.freedesktop.DBus.Error.NameHasNoOwner",
        "org.freedesktop.DBus.Error.NoReply",
        "org.freedesktop.DBus.Error.Disconnected",
        "org.freedesktop.DBus.Error.Spawn.ChildExited",
    ] {
        let e = ErrorShape { name: Some(name.into()), detail: "Not authorized. permission denied IPC".into() };
        assert_eq!(classify(&e, Some(false)), AccessState::BridgeNotRunning { daemon_running: None });
    }
}

#[test]
fn backoff_stays_within_bounds() {
    let mut s = Supervisor::new();
    for wait in [ServiceWait::TimedOut, ServiceWait::TimedOut, ServiceWait::Appeared, ServiceWait::TimedOut] {
        s.on_wait(wait);
        assert!(BACKOFF_MIN <= s.backoff && s.backoff <= BACKOFF_MAX);
    }
}

#[test]
fn flushing_never_waits_past_the_ceiling() {
    let mut c = Coalescer::new();
    let start = 10 * QUIET_WINDOW;
    c.push(
        DeviceSignal::Presence {
            id: DeviceId::new(1),
            event: DeviceEvent::Insert,
            target: Target::Block,
            rule: String::new(),
            attrs: DeviceAttributes::default(),
        },
        start,
    );
    for elapsed in [0, QUIET_WINDOW, MAX_LATENCY - 1, MAX_LATENCY, MAX_LATENCY + 1] {
        let b = c.budget(start + elapsed).unwrap();
        assert!(b <= QUIET_WINDOW);
        assert!(elapsed + b <= MAX_LATENCY.max(elapsed));
    }
}

#[test]
fn one_command_at_most() {
    assert_eq!(parse_args(&["--list-rules"]), Ok(Command::ListRules));
    assert!(parse_args(&["--list-rules", "--list-devices"]).is_err());
    assert!(parse_args(&["--help", "--help"]).is_err());
}

#[test]
fn a_delta_is_read_back() {
    let mut store = DeviceStore::new();
    store.replace(vec![parse_device(DeviceId::new(2), "allow".into()), parse_device(DeviceId::new(4), "block".into())]);
    let mut d = DeviceDelta {
        id: DeviceId::new(4),
        removed: false,
        target: Some(Target::Reject),
        rule_text: None,
        attrs: DeviceAttributes::default(),
    };
    store.apply(vec![d.clone()]);
    let list = store.sorted();
    assert_eq!(list.iter().find(|x| x.id == DeviceId::new(4)).unwrap().target, Target::Reject);
    assert_eq!(list.iter().find(|x| x.id == DeviceId::new(2)).unwrap().target, Target::Allow);
    d.removed = true;
    store.apply(vec![d]);
    assert!(store.sorted().iter().all(|x| x.id != DeviceId::new(4)));
}

#[test]
fn built_rules_parse_back() {
    let fields = vec![
        FieldInput { name: AttributeName::Serial, operator: None, text: "a \" \\ b\n".into() },
        FieldInput { name: AttributeName::Id, operator: None, text: "abcd:* 1234:5678".into() },
    ];
    let rule = build_rule(RuleTarget::Block, &fields).unwrap();
    assert_eq!(parse_rule(&rule.to_string()).unwrap(), rule);
}

#[test]
fn read_rules_read_back_the_same() {
    let texts = [
        "allow id 1D6B:0002 serial \"0000:00:14.0\" with-interface { 09:00:* 03:01:02 } # hub",
        "block name \"a\\x22b\" if !allowed-matches(name \"(x)\") # \u{e9}t\u{e9}",
        "reject via-port one-of { \"1-1\" \"1-2\" } if one-of { localtime(08:00-17:00) random(0.5) true }",
    ];
    for text in texts {
        let rule = parse_rule(text).unwrap();
        let again = parse_rule(&rule.to_string()).unwrap();
        assert_eq!(again, rule);
        assert_eq!(again.to_string(), rule.to_string());
    }
}
